//! Protocol message definitions, wire-compatible with the peers' protobuf
//! definitions: an `Envelope` carrying either a `Ping` announcement or a
//! `Packet` payload, encoded and decoded by hand with proved round trips.

use vstd::prelude::*;
use vstd::slice::{slice_subrange, slice_to_vec};
use vstd::utf8::{decode_utf8, encode_utf8, valid_utf8};

verus! {

/// Envelope message containing either Ping or Packet.
#[derive(Clone, PartialEq, Debug)]
pub struct Envelope {
    pub kind: Option<Type>,
}

#[derive(Clone, PartialEq, Debug)]
pub enum Type {
    Ping(MessagePing),
    Packet(MessagePacket),
}

/// Ping message for heartbeat/routing.
#[derive(Clone, PartialEq, Debug)]
pub struct MessagePing {
    pub timestamp: i64,
    pub local_addr: String,
    pub local_private_addr: String,
    pub ip: String,
    pub dc: String,
}

/// Packet message for IP packet payload.
#[derive(Clone, PartialEq, Debug)]
pub struct MessagePacket {
    pub payload: Vec<u8>,
}

pub struct PingView {
    pub timestamp: i64,
    pub local_addr: Seq<char>,
    pub local_private_addr: Seq<char>,
    pub ip: Seq<char>,
    pub dc: Seq<char>,
}

pub struct PacketView {
    pub payload: Seq<u8>,
}

pub enum TypeView {
    Ping(PingView),
    Packet(PacketView),
}

pub struct EnvelopeView {
    pub kind: Option<TypeView>,
}

impl View for MessagePing {
    type V = PingView;

    open spec fn view(&self) -> PingView {
        PingView {
            timestamp: self.timestamp,
            local_addr: self.local_addr@,
            local_private_addr: self.local_private_addr@,
            ip: self.ip@,
            dc: self.dc@,
        }
    }
}

impl View for MessagePacket {
    type V = PacketView;

    open spec fn view(&self) -> PacketView {
        PacketView { payload: self.payload@ }
    }
}

impl View for Type {
    type V = TypeView;

    open spec fn view(&self) -> TypeView {
        match self {
            Type::Ping(p) => TypeView::Ping(p@),
            Type::Packet(p) => TypeView::Packet(p@),
        }
    }
}

impl View for Envelope {
    type V = EnvelopeView;

    open spec fn view(&self) -> EnvelopeView {
        EnvelopeView {
            kind: match self.kind {
                None => None,
                Some(t) => Some(t@),
            },
        }
    }
}

impl Default for MessagePing {
    /// The all-defaults ping: zero timestamp, empty strings.
    fn default() -> (r: MessagePing)
        ensures
            r@ == PingView::initial(),
    {
        let r = MessagePing {
            timestamp: 0,
            local_addr: String::new(),
            local_private_addr: String::new(),
            ip: String::new(),
            dc: String::new(),
        };
        r
    }
}

impl PingView {
    /// The view of a ping with every field at its protobuf default.
    pub open spec fn initial() -> PingView {
        PingView {
            timestamp: 0,
            local_addr: Seq::empty(),
            local_private_addr: Seq::empty(),
            ip: Seq::empty(),
            dc: Seq::empty(),
        }
    }
}

impl Default for MessagePacket {
    fn default() -> (r: MessagePacket)
        ensures
            r@.payload == Seq::<u8>::empty(),
    {
        MessagePacket { payload: Vec::new() }
    }
}

impl Default for Envelope {
    fn default() -> (r: Envelope)
        ensures
            r@.kind is None,
    {
        Envelope { kind: None }
    }
}

/// Decoding failed: the buffer is not a well-formed message.
#[derive(Debug, Clone, Copy, PartialEq, Eq, Structural)]
pub enum DecodeError {
    Malformed,
}

// ---------------------------------------------------------------------------
// The wire form, as specification: base-128 varints, field keys, fields.
// ---------------------------------------------------------------------------

/// The base-128 varint encoding of a value, least significant group first,
/// high bit set on every byte but the last.
pub open spec fn varint(n: nat) -> Seq<u8>
    decreases n,
{
    if n < 128 {
        seq![n as u8]
    } else {
        seq![(128 + (n % 128)) as u8] + varint(n / 128)
    }
}

/// The unsigned 64-bit representation of a signed value, as protobuf's
/// `int64` encodes it: two's complement.
pub open spec fn u64_of_i64(x: i64) -> nat {
    if x >= 0 {
        x as nat
    } else {
        (x + 0x1_0000_0000_0000_0000) as nat
    }
}

/// The signed value a 64-bit representation stands for.
pub open spec fn i64_of_u64(v: nat) -> i64 {
    if v < 0x8000_0000_0000_0000 {
        v as i64
    } else {
        (v - 0x1_0000_0000_0000_0000) as i64
    }
}

/// A field key: the tag and the wire type packed in one varint.
pub open spec fn key_bytes(tag: nat, wire: nat) -> Seq<u8> {
    varint(tag * 8 + wire)
}

/// A varint-valued field.
pub open spec fn varint_field(tag: nat, v: nat) -> Seq<u8> {
    key_bytes(tag, 0) + varint(v)
}

/// A length-delimited field.
pub open spec fn len_field(tag: nat, body: Seq<u8>) -> Seq<u8> {
    key_bytes(tag, 2) + varint(body.len()) + body
}

/// A string field: length-delimited UTF-8 bytes.
pub open spec fn string_field(tag: nat, s: Seq<char>) -> Seq<u8> {
    len_field(tag, encode_utf8(s))
}

/// The wire bytes of a ping. Default values are omitted.
pub open spec fn ping_enc(p: PingView) -> Seq<u8> {
    (if p.timestamp != 0 {
        varint_field(1, u64_of_i64(p.timestamp))
    } else {
        Seq::empty()
    }) + (if p.local_addr.len() != 0 {
        string_field(2, p.local_addr)
    } else {
        Seq::empty()
    }) + (if p.local_private_addr.len() != 0 {
        string_field(3, p.local_private_addr)
    } else {
        Seq::empty()
    }) + (if p.ip.len() != 0 {
        string_field(4, p.ip)
    } else {
        Seq::empty()
    }) + (if p.dc.len() != 0 {
        string_field(5, p.dc)
    } else {
        Seq::empty()
    })
}

/// The wire bytes of a packet. An empty payload is omitted.
pub open spec fn packet_enc(p: PacketView) -> Seq<u8> {
    if p.payload.len() != 0 {
        len_field(1, p.payload)
    } else {
        Seq::empty()
    }
}

/// The wire bytes of an envelope: one length-delimited field for whichever
/// variant it holds, nothing for none.
pub open spec fn envelope_enc(e: EnvelopeView) -> Seq<u8> {
    match e.kind {
        None => Seq::empty(),
        Some(TypeView::Ping(p)) => len_field(1, ping_enc(p)),
        Some(TypeView::Packet(p)) => len_field(2, packet_enc(p)),
    }
}

// ---------------------------------------------------------------------------
// The wire form, read back: total spec decoders.
// ---------------------------------------------------------------------------

/// Read one varint from the front of a buffer: its value and how many bytes
/// it took. Nothing is read past the terminating byte.
pub open spec fn varint_dec(b: Seq<u8>) -> Option<(nat, int)>
    decreases b.len(),
{
    if b.len() == 0 {
        None
    } else if b[0] < 128 {
        Some((b[0] as nat, 1))
    } else {
        match varint_dec(b.skip(1)) {
            None => None,
            Some((v, c)) => Some((((b[0] - 128) as nat + 128 * v) as nat, c + 1)),
        }
    }
}

/// Read one varint as a 64-bit value, within the ten-byte limit the wire
/// format allows.
pub open spec fn varint_dec64(b: Seq<u8>) -> Option<(nat, int)> {
    match varint_dec(b) {
        None => None,
        Some((v, c)) => if c <= 10 && v < 0x1_0000_0000_0000_0000 {
            Some((v, c))
        } else {
            None
        },
    }
}

/// A decoded varint took at least one byte and no more than the buffer.
pub proof fn lemma_varint_dec_bounds(b: Seq<u8>)
    ensures
        varint_dec(b) matches Some(vc) ==> 1 <= vc.1 <= b.len(),
    decreases b.len(),
{
    if b.len() != 0 && b[0] >= 128 {
        lemma_varint_dec_bounds(b.skip(1));
    }
}

/// Decoding reads back exactly what encoding wrote, and leaves the rest.
pub proof fn lemma_varint_roundtrip(n: nat, rest: Seq<u8>)
    ensures
        varint_dec(varint(n) + rest) == Some((n, varint(n).len() as int)),
        1 <= varint(n).len(),
        n < 0x1_0000_0000_0000_0000 ==> varint(n).len() <= 10,
    decreases n,
{
    let w = varint(n) + rest;
    if n < 0x1_0000_0000_0000_0000 {
        // ten base-128 digits cover every 64-bit value
        assert(pow128(10) == 0x40_0000_0000_0000_0000) by {
            reveal_with_fuel(pow128, 11);
        }
        lemma_varint_len_le(n, 10);
    }
    if n < 128 {
        assert(w[0] == n as u8);
    } else {
        lemma_varint_roundtrip(n / 128, rest);
        assert(w.skip(1) =~= varint(n / 128) + rest);
        assert(w[0] == (128 + (n % 128)) as u8);
        assert((w[0] - 128) as nat + 128 * (n / 128) == n);
    }
}

/// A value below 128^k encodes in at most k bytes (for k at least 1).
pub proof fn lemma_varint_len_le(n: nat, k: nat)
    requires
        k >= 1,
        n < pow128(k),
    ensures
        varint(n).len() <= k,
    decreases k,
{
    if n < 128 {
    } else {
        assert(pow128(k) == 128 * pow128((k - 1) as nat));
        assert(n / 128 < pow128((k - 1) as nat));
        assert(k >= 2) by {
            if k == 1 {
                assert(pow128(1nat) == 128 * pow128(0nat));
            }
        }
        lemma_varint_len_le(n / 128, (k - 1) as nat);
    }
}

/// 128 raised to a power.
pub open spec fn pow128(k: nat) -> nat
    decreases k,
{
    if k == 0 {
        1
    } else {
        128 * pow128((k - 1) as nat)
    }
}

/// Powers of 128 grow with the exponent.
pub proof fn lemma_pow128_le(i: nat, j: nat)
    requires
        i <= j,
    ensures
        pow128(i) <= pow128(j),
        pow128(i) >= 1,
    decreases j,
{
    if j > 0 {
        if i == j {
            lemma_pow128_le(0, (j - 1) as nat);
            assert(pow128(j) == 128 * pow128((j - 1) as nat));
        } else {
            lemma_pow128_le(i, (j - 1) as nat);
            assert(pow128(j) == 128 * pow128((j - 1) as nat));
        }
    }
}

/// The two's-complement representation round-trips.
pub proof fn lemma_i64_roundtrip(x: i64)
    ensures
        u64_of_i64(x) < 0x1_0000_0000_0000_0000,
        i64_of_u64(u64_of_i64(x)) == x,
{
}

/// Read one length-delimited field body from the front of a buffer: the
/// bytes and how much of the buffer the length and the body took.
pub open spec fn bytes_dec(b: Seq<u8>) -> Option<(Seq<u8>, int)> {
    match varint_dec64(b) {
        None => None,
        Some((v, c)) => if c + v <= b.len() {
            Some((b.subrange(c, c + v), c + v))
        } else {
            None
        },
    }
}

/// How many bytes an unknown field of the given wire type occupies at the
/// front of a buffer; nothing for a wire type that cannot be skipped.
/// The long-deprecated group wire types are not accepted.
pub open spec fn skip_dec(wire: nat, b: Seq<u8>) -> Option<int> {
    if wire == 0 {
        match varint_dec64(b) {
            None => None,
            Some((v, c)) => Some(c),
        }
    } else if wire == 1 {
        if b.len() >= 8 {
            Some(8)
        } else {
            None
        }
    } else if wire == 2 {
        match bytes_dec(b) {
            None => None,
            Some((bs, c)) => Some(c),
        }
    } else if wire == 5 {
        if b.len() >= 4 {
            Some(4)
        } else {
            None
        }
    } else {
        None
    }
}

/// One decoded field key: its tag and wire type, and the bytes it took.
/// A key must fit 32 bits and its tag must not be zero.
pub open spec fn key_dec(b: Seq<u8>) -> Option<(nat, nat, int)> {
    match varint_dec64(b) {
        None => None,
        Some((k, c)) => if k <= 0xffff_ffff && k / 8 >= 1 {
            Some((k / 8, k % 8, c))
        } else {
            None
        },
    }
}

/// Fold the fields of a ping over an accumulator, as a merging decoder
/// does: later occurrences of a field replace earlier ones, unknown tags
/// are skipped, a wrong wire type or malformed content rejects the buffer.
pub open spec fn ping_dec(b: Seq<u8>, acc: PingView) -> Option<PingView>
    decreases b.len(),
{
    if b.len() == 0 {
        Some(acc)
    } else {
        match key_dec(b) {
            None => None,
            Some((tag, wire, kc)) => {
                let rest = b.skip(kc);
                if tag == 1 {
                    if wire == 0 {
                        match varint_dec64(rest) {
                            None => None,
                            Some((v, c)) => if 1 <= kc + c <= b.len() {
                                ping_dec(
                                    b.skip(kc + c),
                                    PingView { timestamp: i64_of_u64(v), ..acc },
                                )
                            } else {
                                None
                            },
                        }
                    } else {
                        None
                    }
                } else if 2 <= tag && tag <= 5 {
                    if wire == 2 {
                        match bytes_dec(rest) {
                            None => None,
                            Some((bs, c)) => if valid_utf8(bs) && 1 <= kc + c <= b.len() {
                                ping_dec(b.skip(kc + c), ping_with(acc, tag, decode_utf8(bs)))
                            } else {
                                None
                            },
                        }
                    } else {
                        None
                    }
                } else {
                    match skip_dec(wire, rest) {
                        None => None,
                        Some(c) => if 1 <= kc + c <= b.len() {
                            ping_dec(b.skip(kc + c), acc)
                        } else {
                            None
                        },
                    }
                }
            },
        }
    }
}

/// The accumulator with one of the ping's string fields replaced.
pub open spec fn ping_with(acc: PingView, tag: nat, s: Seq<char>) -> PingView {
    if tag == 2 {
        PingView { local_addr: s, ..acc }
    } else if tag == 3 {
        PingView { local_private_addr: s, ..acc }
    } else if tag == 4 {
        PingView { ip: s, ..acc }
    } else {
        PingView { dc: s, ..acc }
    }
}

/// Fold the fields of a packet over an accumulator.
pub open spec fn packet_dec(b: Seq<u8>, acc: PacketView) -> Option<PacketView>
    decreases b.len(),
{
    if b.len() == 0 {
        Some(acc)
    } else {
        match key_dec(b) {
            None => None,
            Some((tag, wire, kc)) => {
                let rest = b.skip(kc);
                if tag == 1 {
                    if wire == 2 {
                        match bytes_dec(rest) {
                            None => None,
                            Some((bs, c)) => if 1 <= kc + c <= b.len() {
                                packet_dec(b.skip(kc + c), PacketView { payload: bs })
                            } else {
                                None
                            },
                        }
                    } else {
                        None
                    }
                } else {
                    match skip_dec(wire, rest) {
                        None => None,
                        Some(c) => if 1 <= kc + c <= b.len() {
                            packet_dec(b.skip(kc + c), acc)
                        } else {
                            None
                        },
                    }
                }
            },
        }
    }
}

/// Fold the fields of an envelope: each occurrence of a variant field
/// decodes a fresh message and replaces whatever was held before.
pub open spec fn envelope_dec_fields(b: Seq<u8>, acc: Option<TypeView>) -> Option<
    Option<TypeView>,
>
    decreases b.len(),
{
    if b.len() == 0 {
        Some(acc)
    } else {
        match key_dec(b) {
            None => None,
            Some((tag, wire, kc)) => {
                let rest = b.skip(kc);
                if tag == 1 || tag == 2 {
                    if wire == 2 {
                        match bytes_dec(rest) {
                            None => None,
                            Some((bs, c)) => if 1 <= kc + c <= b.len() {
                                if tag == 1 {
                                    match ping_dec(bs, PingView::initial()) {
                                        None => None,
                                        Some(p) => envelope_dec_fields(
                                            b.skip(kc + c),
                                            Some(TypeView::Ping(p)),
                                        ),
                                    }
                                } else {
                                    match packet_dec(bs, PacketView { payload: Seq::empty() }) {
                                        None => None,
                                        Some(p) => envelope_dec_fields(
                                            b.skip(kc + c),
                                            Some(TypeView::Packet(p)),
                                        ),
                                    }
                                }
                            } else {
                                None
                            },
                        }
                    } else {
                        None
                    }
                } else {
                    match skip_dec(wire, rest) {
                        None => None,
                        Some(c) => if 1 <= kc + c <= b.len() {
                            envelope_dec_fields(b.skip(kc + c), acc)
                        } else {
                            None
                        },
                    }
                }
            },
        }
    }
}

/// What decoding a whole buffer as an envelope yields.
pub open spec fn envelope_dec(b: Seq<u8>) -> Option<EnvelopeView> {
    match envelope_dec_fields(b, None) {
        None => None,
        Some(kind) => Some(EnvelopeView { kind }),
    }
}

// ---------------------------------------------------------------------------
// Encoding.
// ---------------------------------------------------------------------------

/// Append the varint encoding of a value to a buffer.
fn write_varint(buf: &mut Vec<u8>, v0: u64)
    ensures
        final(buf)@ == old(buf)@ + varint(v0 as nat),
{
    let mut v = v0;
    while v >= 128
        invariant
            buf@ + varint(v as nat) == old(buf)@ + varint(v0 as nat),
        decreases v,
    {
        let ghost pre = buf@;
        buf.push((128 + (v % 128) as u8) as u8);
        proof {
            assert(buf@ + varint((v / 128) as nat) =~= pre + varint(v as nat));
        }
        v = v / 128;
    }
    let ghost pre = buf@;
    buf.push(v as u8);
    proof {
        assert(buf@ =~= pre + varint(v as nat));
    }
}

/// The unsigned 64-bit representation of a signed value.
fn u64_rep(x: i64) -> (r: u64)
    ensures
        r as nat == u64_of_i64(x),
{
    if x >= 0 {
        x as u64
    } else {
        ((x as i128) + 0x1_0000_0000_0000_0000) as u64
    }
}

/// The signed value a 64-bit representation stands for.
fn i64_rep(v: u64) -> (r: i64)
    ensures
        r == i64_of_u64(v as nat),
{
    if v < 0x8000_0000_0000_0000 {
        v as i64
    } else {
        ((v as i128) - 0x1_0000_0000_0000_0000) as i64
    }
}

// ---------------------------------------------------------------------------
// Round trips: decoding reads back exactly what encoding wrote.
// ---------------------------------------------------------------------------

/// A bounded varint decodes back from the front of any buffer.
pub proof fn lemma_varint_dec64_roundtrip(n: nat, rest: Seq<u8>)
    requires
        n < 0x1_0000_0000_0000_0000,
    ensures
        varint_dec64(varint(n) + rest) == Some((n, varint(n).len() as int)),
        1 <= varint(n).len() <= 10,
{
    lemma_varint_roundtrip(n, rest);
}

/// A small single-byte field key decodes back from the front of any buffer.
pub proof fn lemma_key_dec(tag: nat, wire: nat, rest: Seq<u8>)
    requires
        1 <= tag <= 5,
        wire <= 7,
    ensures
        key_bytes(tag, wire).len() == 1,
        key_dec(key_bytes(tag, wire) + rest) == Some((tag, wire, 1int)),
{
    let k = tag * 8 + wire;
    assert(k < 128);
    lemma_varint_dec64_roundtrip(k, rest);
    assert(k / 8 == tag && k % 8 == wire);
}

/// A length-delimited body decodes back from the front of any buffer.
pub proof fn lemma_bytes_dec(body: Seq<u8>, rest: Seq<u8>)
    requires
        body.len() < 0x1_0000_0000_0000_0000,
    ensures
        bytes_dec(varint(body.len()) + body + rest) matches Some(bc) && bc.0 == body && bc.1
            == varint(body.len()).len() + body.len(),
{
    let lv = varint(body.len());
    let w = lv + body + rest;
    lemma_varint_dec64_roundtrip(body.len(), body + rest);
    assert(w =~= lv + (body + rest));
    let c = lv.len() as int;
    assert(c + body.len() <= w.len());
    assert(w.subrange(c, c + body.len() as int) =~= body);
}

/// Decoding one encoded timestamp field steps the accumulator.
pub proof fn lemma_ping_dec_ts(v: nat, rest: Seq<u8>, acc: PingView)
    requires
        v < 0x1_0000_0000_0000_0000,
    ensures
        ping_dec(varint_field(1, v) + rest, acc) == ping_dec(
            rest,
            PingView { timestamp: i64_of_u64(v), ..acc },
        ),
{
    let w = varint_field(1, v) + rest;
    assert(w =~= key_bytes(1, 0) + (varint(v) + rest));
    lemma_key_dec(1, 0, varint(v) + rest);
    assert(w.len() >= 1);
    assert(w.skip(1) =~= varint(v) + rest);
    lemma_varint_dec64_roundtrip(v, rest);
    let c = varint(v).len() as int;
    assert(w.skip(1 + c) =~= rest);
}

/// Decoding one encoded string field steps the accumulator.
pub proof fn lemma_ping_dec_str(tag: nat, s: Seq<char>, rest: Seq<u8>, acc: PingView)
    requires
        2 <= tag <= 5,
        encode_utf8(s).len() < 0x1_0000_0000_0000_0000,
    ensures
        ping_dec(string_field(tag, s) + rest, acc) == ping_dec(rest, ping_with(acc, tag, s)),
{
    let body = encode_utf8(s);
    let lv = varint(body.len());
    let w = string_field(tag, s) + rest;
    assert(w =~= key_bytes(tag, 2) + (lv + body + rest));
    lemma_key_dec(tag, 2, lv + body + rest);
    assert(w.len() >= 1);
    assert(w.skip(1) =~= lv + body + rest);
    lemma_bytes_dec(body, rest);
    vstd::utf8::encode_utf8_valid_utf8(s);
    vstd::utf8::encode_utf8_decode_utf8(s);
    let c: int = lv.len() as int + body.len() as int;
    assert(w.skip(1 + c) =~= rest);
}

/// A ping decodes back from its own wire bytes.
pub proof fn lemma_ping_roundtrip(p: PingView)
    requires
        ping_enc(p).len() < 0x1_0000_0000_0000_0000,
    ensures
        ping_dec(ping_enc(p), PingView::initial()) == Some(p),
{
    let f1: Seq<u8> = if p.timestamp != 0 {
        varint_field(1, u64_of_i64(p.timestamp))
    } else {
        Seq::empty()
    };
    let f2: Seq<u8> = if p.local_addr.len() != 0 {
        string_field(2, p.local_addr)
    } else {
        Seq::empty()
    };
    let f3: Seq<u8> = if p.local_private_addr.len() != 0 {
        string_field(3, p.local_private_addr)
    } else {
        Seq::empty()
    };
    let f4: Seq<u8> = if p.ip.len() != 0 {
        string_field(4, p.ip)
    } else {
        Seq::empty()
    };
    let f5: Seq<u8> = if p.dc.len() != 0 {
        string_field(5, p.dc)
    } else {
        Seq::empty()
    };
    assert(ping_enc(p) =~= f1 + (f2 + (f3 + (f4 + f5))));

    let a0 = PingView::initial();
    let a1 = PingView { timestamp: p.timestamp, ..a0 };
    let a2 = PingView { local_addr: p.local_addr, ..a1 };
    let a3 = PingView { local_private_addr: p.local_private_addr, ..a2 };
    let a4 = PingView { ip: p.ip, ..a3 };
    let a5 = PingView { dc: p.dc, ..a4 };

    let r1 = f2 + (f3 + (f4 + f5));
    let r2 = f3 + (f4 + f5);
    let r3 = f4 + f5;
    let r4 = f5;

    if p.timestamp != 0 {
        lemma_i64_roundtrip(p.timestamp);
        lemma_ping_dec_ts(u64_of_i64(p.timestamp), r1, a0);
        assert(ping_dec(f1 + r1, a0) == ping_dec(r1, a1));
    } else {
        assert(f1 + r1 =~= r1);
        assert(a1 == a0);
    }
    if p.local_addr.len() != 0 {
        assert(encode_utf8(p.local_addr).len() <= f2.len());
        lemma_ping_dec_str(2, p.local_addr, r2, a1);
        assert(ping_dec(f2 + r2, a1) == ping_dec(r2, a2));
    } else {
        assert(f2 + r2 =~= r2);
        assert(p.local_addr =~= a1.local_addr);
        assert(a2 == a1);
    }
    if p.local_private_addr.len() != 0 {
        assert(encode_utf8(p.local_private_addr).len() <= f3.len());
        lemma_ping_dec_str(3, p.local_private_addr, r3, a2);
        assert(ping_dec(f3 + r3, a2) == ping_dec(r3, a3));
    } else {
        assert(f3 + r3 =~= r3);
        assert(p.local_private_addr =~= a2.local_private_addr);
        assert(a3 == a2);
    }
    if p.ip.len() != 0 {
        assert(encode_utf8(p.ip).len() <= f4.len());
        lemma_ping_dec_str(4, p.ip, r4, a3);
        assert(ping_dec(f4 + r4, a3) == ping_dec(r4, a4));
    } else {
        assert(f4 + r4 =~= r4);
        assert(p.ip =~= a3.ip);
        assert(a4 == a3);
    }
    if p.dc.len() != 0 {
        assert(encode_utf8(p.dc).len() <= f5.len());
        lemma_ping_dec_str(5, p.dc, Seq::<u8>::empty(), a4);
        assert(f5 + Seq::<u8>::empty() =~= f5);
        assert(ping_dec(f5, a4) == ping_dec(Seq::<u8>::empty(), a5));
    } else {
        assert(p.dc =~= a4.dc);
        assert(a5 == a4);
    }
    assert(ping_dec(Seq::<u8>::empty(), a5) == Some(a5));
    assert(a5 == p);
}

/// A packet decodes back from its own wire bytes.
pub proof fn lemma_packet_roundtrip(p: PacketView)
    requires
        p.payload.len() < 0x1_0000_0000_0000_0000,
    ensures
        packet_dec(packet_enc(p), PacketView { payload: Seq::empty() }) == Some(p),
{
    let a0 = PacketView { payload: Seq::<u8>::empty() };
    if p.payload.len() == 0 {
        assert(packet_enc(p) =~= Seq::<u8>::empty());
        assert(a0.payload =~= p.payload);
        assert(a0 == p);
    } else {
        let body = p.payload;
        let lv = varint(body.len());
        let w = packet_enc(p);
        assert(w =~= key_bytes(1, 2) + (lv + body + Seq::<u8>::empty()));
        lemma_key_dec(1, 2, lv + body + Seq::<u8>::empty());
        assert(w.len() >= 1);
        assert(w.skip(1) =~= lv + body + Seq::<u8>::empty());
        lemma_bytes_dec(body, Seq::empty());
        let c: int = lv.len() as int + body.len() as int;
        assert(w.skip(1 + c) =~= Seq::<u8>::empty());
        assert(packet_dec(w, a0) == packet_dec(Seq::<u8>::empty(), PacketView { payload: body }));
    }
}

/// An envelope decodes back from its own wire bytes: the round trip of the
/// message codec, for every envelope whose encoding fits 64 bits of length.
pub proof fn lemma_envelope_roundtrip(e: EnvelopeView)
    requires
        envelope_enc(e).len() < 0x1_0000_0000_0000_0000,
    ensures
        envelope_dec(envelope_enc(e)) == Some(e),
{
    match e.kind {
        None => {
            assert(envelope_dec_fields(Seq::<u8>::empty(), None) == Some(None::<TypeView>));
            assert(EnvelopeView { kind: None } == e);
        },
        Some(TypeView::Ping(p)) => {
            let body = ping_enc(p);
            let lv = varint(body.len());
            let w = envelope_enc(e);
            assert(w =~= key_bytes(1, 2) + (lv + body + Seq::<u8>::empty()));
            lemma_key_dec(1, 2, lv + body + Seq::<u8>::empty());
            assert(w.len() >= 1);
            assert(w.skip(1) =~= lv + body + Seq::<u8>::empty());
            lemma_bytes_dec(body, Seq::empty());
            lemma_ping_roundtrip(p);
            let c: int = lv.len() as int + body.len() as int;
            assert(w.skip(1 + c) =~= Seq::<u8>::empty());
            assert(envelope_dec_fields(w, None) == envelope_dec_fields(
                Seq::<u8>::empty(),
                Some(TypeView::Ping(p)),
            ));
            assert(EnvelopeView { kind: Some(TypeView::Ping(p)) } == e);
        },
        Some(TypeView::Packet(p)) => {
            let body = packet_enc(p);
            let lv = varint(body.len());
            let w = envelope_enc(e);
            assert(w =~= key_bytes(2, 2) + (lv + body + Seq::<u8>::empty()));
            lemma_key_dec(2, 2, lv + body + Seq::<u8>::empty());
            assert(w.len() >= 1);
            assert(w.skip(1) =~= lv + body + Seq::<u8>::empty());
            lemma_bytes_dec(body, Seq::empty());
            assert(p.payload.len() <= body.len());
            lemma_packet_roundtrip(p);
            let c: int = lv.len() as int + body.len() as int;
            assert(w.skip(1 + c) =~= Seq::<u8>::empty());
            assert(envelope_dec_fields(w, None) == envelope_dec_fields(
                Seq::<u8>::empty(),
                Some(TypeView::Packet(p)),
            ));
            assert(EnvelopeView { kind: Some(TypeView::Packet(p)) } == e);
        },
    }
}

impl MessagePing {
    /// The wire bytes of this ping.
    #[verifier::rlimit(100)]
    pub fn encode_to_vec(&self) -> (r: Vec<u8>)
        ensures
            r@ == ping_enc(self@),
    {
        let ghost f1: Seq<u8> = if self@.timestamp != 0 {
            varint_field(1, u64_of_i64(self@.timestamp))
        } else {
            Seq::empty()
        };
        let ghost f2: Seq<u8> = if self@.local_addr.len() != 0 {
            string_field(2, self@.local_addr)
        } else {
            Seq::empty()
        };
        let ghost f3: Seq<u8> = if self@.local_private_addr.len() != 0 {
            string_field(3, self@.local_private_addr)
        } else {
            Seq::empty()
        };
        let ghost f4: Seq<u8> = if self@.ip.len() != 0 {
            string_field(4, self@.ip)
        } else {
            Seq::empty()
        };
        let ghost f5: Seq<u8> = if self@.dc.len() != 0 {
            string_field(5, self@.dc)
        } else {
            Seq::empty()
        };
        let mut buf: Vec<u8> = Vec::new();
        if self.timestamp != 0 {
            write_varint(&mut buf, 8);
            write_varint(&mut buf, u64_rep(self.timestamp));
        }
        proof {
            assert(buf@ =~= f1);
        }
        if !self.local_addr.as_str().is_empty() {
            let bs = self.local_addr.as_str().as_bytes();
            write_varint(&mut buf, 18);
            write_varint(&mut buf, bs.len() as u64);
            buf.extend_from_slice(bs);
        }
        proof {
            assert(buf@ =~= f1 + f2);
        }
        if !self.local_private_addr.as_str().is_empty() {
            let bs = self.local_private_addr.as_str().as_bytes();
            write_varint(&mut buf, 26);
            write_varint(&mut buf, bs.len() as u64);
            buf.extend_from_slice(bs);
        }
        proof {
            assert(buf@ =~= f1 + f2 + f3);
        }
        if !self.ip.as_str().is_empty() {
            let bs = self.ip.as_str().as_bytes();
            write_varint(&mut buf, 34);
            write_varint(&mut buf, bs.len() as u64);
            buf.extend_from_slice(bs);
        }
        proof {
            assert(buf@ =~= f1 + f2 + f3 + f4);
        }
        if !self.dc.as_str().is_empty() {
            let bs = self.dc.as_str().as_bytes();
            write_varint(&mut buf, 42);
            write_varint(&mut buf, bs.len() as u64);
            buf.extend_from_slice(bs);
        }
        proof {
            assert(buf@ =~= f1 + f2 + f3 + f4 + f5);
            assert(buf@ =~= ping_enc(self@));
        }
        buf
    }
}

impl MessagePacket {
    /// The wire bytes of this packet.
    pub fn encode_to_vec(&self) -> (r: Vec<u8>)
        ensures
            r@ == packet_enc(self@),
    {
        let mut buf: Vec<u8> = Vec::new();
        if !self.payload.is_empty() {
            write_varint(&mut buf, 10);
            write_varint(&mut buf, self.payload.len() as u64);
            buf.extend_from_slice(self.payload.as_slice());
        }
        proof {
            assert(buf@ =~= packet_enc(self@));
        }
        buf
    }
}

impl Envelope {
    /// The wire bytes of this envelope. Decoding them yields this envelope
    /// back.
    pub fn encode_to_vec(&self) -> (r: Vec<u8>)
        ensures
            r@ == envelope_enc(self@),
            envelope_dec(r@) == Some(self@),
    {
        let r = self.encode_inner();
        proof {
            assert(r@.len() == r.len());
            lemma_envelope_roundtrip(self@);
        }
        r
    }

    fn encode_inner(&self) -> (r: Vec<u8>)
        ensures
            r@ == envelope_enc(self@),
    {
        match &self.kind {
            None => Vec::new(),
            Some(Type::Ping(p)) => {
                let body = p.encode_to_vec();
                let mut buf: Vec<u8> = Vec::new();
                write_varint(&mut buf, 10);
                write_varint(&mut buf, body.len() as u64);
                buf.extend_from_slice(body.as_slice());
                proof {
                    assert(buf@ =~= envelope_enc(self@));
                }
                buf
            },
            Some(Type::Packet(p)) => {
                let body = p.encode_to_vec();
                let mut buf: Vec<u8> = Vec::new();
                write_varint(&mut buf, 18);
                write_varint(&mut buf, body.len() as u64);
                buf.extend_from_slice(body.as_slice());
                proof {
                    assert(buf@ =~= envelope_enc(self@));
                }
                buf
            },
        }
    }
}

// ---------------------------------------------------------------------------
// Decoding.
// ---------------------------------------------------------------------------

/// Compose a decoded suffix varint with the accumulated prefix digits.
spec fn vd_step(acc: nat, mult: nat, i: int, o: Option<(nat, int)>) -> Option<(nat, int)> {
    match o {
        None => None,
        Some((v, c)) => Some(((acc + mult * v) as nat, i + c)),
    }
}

/// Read one varint starting at `pos`, returning its value and the position
/// just past it; an error wherever the spec decoder yields nothing.
fn read_varint(buf: &[u8], pos: usize) -> (r: Result<(u64, usize), DecodeError>)
    requires
        pos <= buf@.len(),
    ensures
        r matches Ok(vc) ==> varint_dec64(buf@.skip(pos as int)) == Some(
            (vc.0 as nat, vc.1 - pos),
        ) && pos < vc.1 <= buf@.len(),
        r is Err ==> varint_dec64(buf@.skip(pos as int)) is None,
{
    let ghost s = buf@.skip(pos as int);
    proof {
        assert(s.skip(0) =~= s);
    }
    let mut i: usize = 0;
    let mut acc: u128 = 0;
    let mut mult: u128 = 1;
    loop
        invariant
            pos <= buf@.len(),
            0 <= i <= 10,
            pos + i <= buf@.len(),
            s == buf@.skip(pos as int),
            mult == pow128(i as nat),
            (acc as nat) < (mult as nat),
            varint_dec(s) == vd_step(
                acc as nat,
                mult as nat,
                i as int,
                varint_dec(s.skip(i as int)),
            ),
        decreases 11 - i,
    {
        proof {
            lemma_pow128_le(i as nat, 10);
            assert(pow128(9) == 0x8000_0000_0000_0000 && pow128(10)
                == 0x40_0000_0000_0000_0000) by {
                reveal_with_fuel(pow128, 11);
            }
        }
        if i == 10 {
            proof {
                lemma_varint_dec_bounds(s.skip(10));
            }
            return Err(DecodeError::Malformed);
        }
        proof {
            lemma_pow128_le(i as nat, 9);
        }
        if i >= buf.len() - pos {
            proof {
                assert(s.skip(i as int) =~= Seq::<u8>::empty());
            }
            return Err(DecodeError::Malformed);
        }
        let b = buf[pos + i];
        proof {
            assert(s.skip(i as int)[0] == buf@[pos + i as int]);
        }
        if b < 128 {
            proof {
                assert(s.skip(i as int).len() > 0);
                assert(varint_dec(s.skip(i as int)) == Some((b as nat, 1int)));
                assert((mult as nat) * (b as nat) <= 0x8000_0000_0000_0000 * 127)
                    by (nonlinear_arith)
                    requires
                        (mult as nat) <= 0x8000_0000_0000_0000,
                        (b as nat) < 128,
                ;
            }
            let v128: u128 = acc + mult * (b as u128);
            if v128 > 0xffff_ffff_ffff_ffffu128 {
                return Err(DecodeError::Malformed);
            }
            return Ok((v128 as u64, pos + i + 1));
        }
        proof {
            assert(s.skip(i as int).skip(1) =~= s.skip(i as int + 1));
            assert(pow128((i + 1) as nat) == 128 * pow128(i as nat));
            assert((acc as nat) + (mult as nat) * ((b - 128) as nat) < 128 * (mult as nat))
                by (nonlinear_arith)
                requires
                    (acc as nat) < (mult as nat),
                    ((b - 128) as nat) < 128,
                    (mult as nat) >= 1,
            ;
        }
        let ghost acc0 = acc;
        let ghost mult0 = mult;
        acc = acc + mult * ((b - 128) as u128);
        mult = mult * 128;
        i = i + 1;
        proof {
            let bm = (b - 128) as nat;
            assert((acc as nat) == (acc0 as nat) + (mult0 as nat) * bm);
            assert((mult as nat) == 128 * (mult0 as nat));
            let o = varint_dec(s.skip(i as int));
            match o {
                Some((v, c)) => {
                    assert(varint_dec(s.skip(i as int - 1)) == Some(((bm + 128 * v) as nat, c + 1)));
                    assert((acc0 as nat) + (mult0 as nat) * ((bm + 128 * v) as nat) == (acc as nat)
                        + (mult as nat) * v) by (nonlinear_arith)
                        requires
                            (acc as nat) == (acc0 as nat) + (mult0 as nat) * bm,
                            (mult as nat) == 128 * (mult0 as nat),
                    ;
                    assert(varint_dec(s) == vd_step(acc as nat, mult as nat, i as int, o));
                },
                None => {
                    assert(varint_dec(s.skip(i as int - 1)) is None);
                },
            }
        }
    }
}

/// Read one length-delimited field body starting at `pos`.
fn read_bytes(buf: &[u8], pos: usize) -> (r: Result<(Vec<u8>, usize), DecodeError>)
    requires
        pos <= buf@.len(),
    ensures
        r matches Ok(bc) ==> bytes_dec(buf@.skip(pos as int)) == Some((bc.0@, bc.1 - pos)) && pos
            < bc.1 <= buf@.len(),
        r is Err ==> bytes_dec(buf@.skip(pos as int)) is None,
{
    match read_varint(buf, pos) {
        Err(e) => Err(e),
        Ok((v, p2)) => {
            if v > (buf.len() - p2) as u64 {
                return Err(DecodeError::Malformed);
            }
            let len = v as usize;
            let body = slice_subrange(buf, p2, p2 + len);
            proof {
                let ghost sfx = buf@.skip(pos as int);
                assert(sfx.subrange(p2 - pos, p2 - pos + v as int) =~= buf@.subrange(
                    p2 as int,
                    p2 as int + v as int,
                ));
            }
            Ok((slice_to_vec(body), p2 + len))
        },
    }
}

/// Turn decoded bytes into a string.
///
/// Relies on `String::from_utf8` of std: it succeeds exactly on valid UTF-8
/// bytes and yields the characters they encode.
#[verifier::external_body]
fn vec_to_string(v: Vec<u8>) -> (r: Option<String>)
    ensures
        r is Some <==> valid_utf8(v@),
        r matches Some(s) ==> s@ == decode_utf8(v@),
{
    String::from_utf8(v).ok()
}

/// Consume an unknown field of the given wire type starting at `pos`.
fn skip_field(buf: &[u8], pos: usize, wire: u64) -> (r: Result<usize, DecodeError>)
    requires
        pos <= buf@.len(),
    ensures
        r matches Ok(p2) ==> skip_dec(wire as nat, buf@.skip(pos as int)) == Some(p2 - pos) && pos
            <= p2 <= buf@.len(),
        r is Err ==> skip_dec(wire as nat, buf@.skip(pos as int)) is None,
{
    if wire == 0 {
        match read_varint(buf, pos) {
            Err(e) => Err(e),
            Ok((_, p2)) => Ok(p2),
        }
    } else if wire == 1 {
        if buf.len() - pos >= 8 {
            Ok(pos + 8)
        } else {
            Err(DecodeError::Malformed)
        }
    } else if wire == 2 {
        match read_bytes(buf, pos) {
            Err(e) => Err(e),
            Ok((_, p2)) => Ok(p2),
        }
    } else if wire == 5 {
        if buf.len() - pos >= 4 {
            Ok(pos + 4)
        } else {
            Err(DecodeError::Malformed)
        }
    } else {
        Err(DecodeError::Malformed)
    }
}

impl MessagePing {
    /// Decode a ping from its wire bytes, exactly as the spec decoder folds
    /// them over the all-defaults ping.
    pub fn decode(buf: &[u8]) -> (r: Result<MessagePing, DecodeError>)
        ensures
            r matches Ok(m) ==> ping_dec(buf@, PingView::initial()) == Some(m@),
            r is Err ==> ping_dec(buf@, PingView::initial()) is None,
    {
        let mut msg = MessagePing::default();
        proof {
            assert(buf@.skip(0) =~= buf@);
        }
        let mut pos: usize = 0;
        loop
            invariant
                pos <= buf@.len(),
                ping_dec(buf@, PingView::initial()) == ping_dec(buf@.skip(pos as int), msg@),
            decreases buf@.len() - pos,
        {
            let ghost b = buf@.skip(pos as int);
            if pos == buf.len() {
                proof {
                    assert(b =~= Seq::<u8>::empty());
                }
                return Ok(msg);
            }
            assert(b.len() != 0);
            let (k, p1) = match read_varint(buf, pos) {
                Ok(x) => x,
                Err(e) => {
                    return Err(e);
                },
            };
            if k > 0xffff_ffff || k / 8 == 0 {
                return Err(DecodeError::Malformed);
            }
            let tag = k / 8;
            let wire = k % 8;
            proof {
                assert(key_dec(b) == Some((tag as nat, wire as nat, p1 - pos)));
                assert(b.skip(p1 - pos) =~= buf@.skip(p1 as int));
            }
            if tag == 1 {
                if wire != 0 {
                    return Err(DecodeError::Malformed);
                }
                let (v, p2) = match read_varint(buf, p1) {
                    Ok(x) => x,
                    Err(e) => {
                        return Err(e);
                    },
                };
                msg.timestamp = i64_rep(v);
                proof {
                    assert(b.skip(p2 - pos) =~= buf@.skip(p2 as int));
                }
                pos = p2;
            } else if tag >= 2 && tag <= 5 {
                if wire != 2 {
                    return Err(DecodeError::Malformed);
                }
                let (bs, p2) = match read_bytes(buf, p1) {
                    Ok(x) => x,
                    Err(e) => {
                        return Err(e);
                    },
                };
                let st = match vec_to_string(bs) {
                    Some(s) => s,
                    None => {
                        return Err(DecodeError::Malformed);
                    },
                };
                if tag == 2 {
                    msg.local_addr = st;
                } else if tag == 3 {
                    msg.local_private_addr = st;
                } else if tag == 4 {
                    msg.ip = st;
                } else {
                    msg.dc = st;
                }
                proof {
                    assert(b.skip(p2 - pos) =~= buf@.skip(p2 as int));
                }
                pos = p2;
            } else {
                let p2 = match skip_field(buf, p1, wire) {
                    Ok(x) => x,
                    Err(e) => {
                        return Err(e);
                    },
                };
                proof {
                    assert(b.skip(p2 - pos) =~= buf@.skip(p2 as int));
                }
                pos = p2;
            }
        }
    }
}

impl MessagePacket {
    /// Decode a packet from its wire bytes, exactly as the spec decoder
    /// folds them over the empty packet.
    pub fn decode(buf: &[u8]) -> (r: Result<MessagePacket, DecodeError>)
        ensures
            r matches Ok(m) ==> packet_dec(buf@, PacketView { payload: Seq::empty() }) == Some(
                m@,
            ),
            r is Err ==> packet_dec(buf@, PacketView { payload: Seq::empty() }) is None,
    {
        let mut msg = MessagePacket::default();
        proof {
            assert(buf@.skip(0) =~= buf@);
        }
        let mut pos: usize = 0;
        loop
            invariant
                pos <= buf@.len(),
                packet_dec(buf@, PacketView { payload: Seq::empty() }) == packet_dec(
                    buf@.skip(pos as int),
                    msg@,
                ),
            decreases buf@.len() - pos,
        {
            let ghost b = buf@.skip(pos as int);
            if pos == buf.len() {
                proof {
                    assert(b =~= Seq::<u8>::empty());
                }
                return Ok(msg);
            }
            assert(b.len() != 0);
            let (k, p1) = match read_varint(buf, pos) {
                Ok(x) => x,
                Err(e) => {
                    return Err(e);
                },
            };
            if k > 0xffff_ffff || k / 8 == 0 {
                return Err(DecodeError::Malformed);
            }
            let tag = k / 8;
            let wire = k % 8;
            proof {
                assert(key_dec(b) == Some((tag as nat, wire as nat, p1 - pos)));
                assert(b.skip(p1 - pos) =~= buf@.skip(p1 as int));
            }
            if tag == 1 {
                if wire != 2 {
                    return Err(DecodeError::Malformed);
                }
                let (bs, p2) = match read_bytes(buf, p1) {
                    Ok(x) => x,
                    Err(e) => {
                        return Err(e);
                    },
                };
                msg.payload = bs;
                proof {
                    assert(b.skip(p2 - pos) =~= buf@.skip(p2 as int));
                }
                pos = p2;
            } else {
                let p2 = match skip_field(buf, p1, wire) {
                    Ok(x) => x,
                    Err(e) => {
                        return Err(e);
                    },
                };
                proof {
                    assert(b.skip(p2 - pos) =~= buf@.skip(p2 as int));
                }
                pos = p2;
            }
        }
    }
}

impl Envelope {
    /// Decode an envelope from its wire bytes, exactly as the spec decoder
    /// folds them.
    pub fn decode(buf: &[u8]) -> (r: Result<Envelope, DecodeError>)
        ensures
            r matches Ok(e) ==> envelope_dec(buf@) == Some(e@),
            r is Err ==> envelope_dec(buf@) is None,
    {
        let mut kind: Option<Type> = None;
        proof {
            assert(buf@.skip(0) =~= buf@);
        }
        let mut pos: usize = 0;
        loop
            invariant
                pos <= buf@.len(),
                envelope_dec_fields(buf@, None) == envelope_dec_fields(
                    buf@.skip(pos as int),
                    match kind {
                        None => None,
                        Some(t) => Some(t@),
                    },
                ),
            decreases buf@.len() - pos,
        {
            let ghost b = buf@.skip(pos as int);
            if pos == buf.len() {
                proof {
                    assert(b =~= Seq::<u8>::empty());
                }
                return Ok(Envelope { kind });
            }
            assert(b.len() != 0);
            let (k, p1) = match read_varint(buf, pos) {
                Ok(x) => x,
                Err(e) => {
                    return Err(e);
                },
            };
            if k > 0xffff_ffff || k / 8 == 0 {
                return Err(DecodeError::Malformed);
            }
            let tag = k / 8;
            let wire = k % 8;
            proof {
                assert(key_dec(b) == Some((tag as nat, wire as nat, p1 - pos)));
                assert(b.skip(p1 - pos) =~= buf@.skip(p1 as int));
            }
            if tag == 1 || tag == 2 {
                if wire != 2 {
                    return Err(DecodeError::Malformed);
                }
                let (bs, p2) = match read_bytes(buf, p1) {
                    Ok(x) => x,
                    Err(e) => {
                        return Err(e);
                    },
                };
                if tag == 1 {
                    let m = match MessagePing::decode(bs.as_slice()) {
                        Ok(m) => m,
                        Err(e) => {
                            return Err(e);
                        },
                    };
                    kind = Some(Type::Ping(m));
                } else {
                    let m = match MessagePacket::decode(bs.as_slice()) {
                        Ok(m) => m,
                        Err(e) => {
                            return Err(e);
                        },
                    };
                    kind = Some(Type::Packet(m));
                }
                proof {
                    assert(b.skip(p2 - pos) =~= buf@.skip(p2 as int));
                }
                pos = p2;
            } else {
                let p2 = match skip_field(buf, p1, wire) {
                    Ok(x) => x,
                    Err(e) => {
                        return Err(e);
                    },
                };
                proof {
                    assert(b.skip(p2 - pos) =~= buf@.skip(p2 as int));
                }
                pos = p2;
            }
        }
    }
}

} // verus!
