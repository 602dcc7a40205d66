//! MAVLink version 1 packets: the frame around a message and its checksum.
use vstd::prelude::*;

use byteorder::LittleEndian;
use byteorder::ReadBytesExt;
use std::io::Cursor;

use crate::message;
use crate::message::Telemetry;

verus! {

/// The byte that every packet starts with.
pub const PACKET_START: u8 = 0xfe;

/// How many bytes a packet has besides its payload: six before it and two after it.
pub const PACKET_OVERHEAD: usize = 8;

/// Trusted: `ReadBytesExt::read_u8` of the `byteorder` crate on a cursor over `payload` set to
/// `position`. It gives the byte that stands there.
#[verifier::external_body]
fn read_u8_at(payload: &[u8], position: usize) -> (r: u8)
    requires
        position < payload@.len(),
    ensures
        r == payload@[position as int],
{
    let mut cur = Cursor::new(payload);
    cur.set_position(position as u64);
    cur.read_u8().unwrap()
}

/// Trusted: `ReadBytesExt::read_u16::<LittleEndian>` of the `byteorder` crate on a cursor over
/// `payload` set to `position`. It gives the number made of the two bytes that stand there, the low
/// byte first.
#[verifier::external_body]
fn read_u16_le_at(payload: &[u8], position: usize) -> (r: u16)
    requires
        position + 2 <= payload@.len(),
    ensures
        r == payload@[position as int] + 256 * payload@[position + 1],
{
    let mut cur = Cursor::new(payload);
    cur.set_position(position as u64);
    cur.read_u16::<LittleEndian>().unwrap()
}

/// One bit goes out of a checksum: the polynomial 0x1021 with its bits in reverse order is 0x8408.
pub open spec fn crc_bit(c: u16) -> u16 {
    if c & 1 == 1 {
        (c >> 1) ^ 0x8408
    } else {
        c >> 1
    }
}

/// One byte goes into a checksum, its low bit first.
pub open spec fn crc_byte(c: u16, b: u8) -> u16 {
    crc_bit(crc_bit(crc_bit(crc_bit(crc_bit(crc_bit(crc_bit(crc_bit(c ^ (b as u16)))))))))
}

/// The CRC-16/MCRF4XX of a sequence of bytes: it starts out as 0xffff.
pub open spec fn mcrf4xx(bytes: Seq<u8>) -> u16
    decreases bytes.len(),
{
    if bytes.len() == 0 {
        0xffff
    } else {
        crc_byte(mcrf4xx(bytes.drop_last()), bytes.last())
    }
}

/// Trusted: `State::<MCRF4XX>` of the `crc16` crate, created by `new`, fed by `update` with `bytes`
/// and read by `get`. The result is the CRC of that type: polynomial 0x1021, start 0xffff, bits in
/// reverse order both in and out, nothing added at the end. See [`mcrf4xx`].
#[verifier::external_body]
fn crc_of(bytes: &[u8]) -> (r: u16)
    ensures
        r == mcrf4xx(bytes@),
{
    let mut crc = crc16::State::<crc16::MCRF4XX>::new();
    crc.update(bytes);
    crc.get()
}

/// A packet: the addressing fields, the payload and the checksum.
#[derive(Debug)]
pub struct MavPacket {
    pub seq: u8,
    pub system_id: u8,
    pub component_id: u8,
    pub message_id: u8,
    pub data: Vec<u8>,
    pub checksum: u16,
}

/// What a [`MavPacket`] holds.
pub struct PacketView {
    pub seq: u8,
    pub system_id: u8,
    pub component_id: u8,
    pub message_id: u8,
    pub data: Seq<u8>,
    pub checksum: u16,
}

impl View for MavPacket {
    type V = PacketView;

    open spec fn view(&self) -> PacketView {
        PacketView {
            seq: self.seq,
            system_id: self.system_id,
            component_id: self.component_id,
            message_id: self.message_id,
            data: self.data@,
            checksum: self.checksum,
        }
    }
}

impl PacketView {
    /// The packet that the bytes of a frame stand for.
    pub open spec fn of_bytes(bytes: Seq<u8>) -> PacketView {
        PacketView {
            seq: bytes[2],
            system_id: bytes[3],
            component_id: bytes[4],
            message_id: bytes[5],
            data: bytes.subrange(6, bytes.len() - 2),
            checksum: (bytes[bytes.len() - 2] + 256 * bytes[bytes.len() - 1]) as u16,
        }
    }

    /// The frame without its checksum: start byte, payload length, addressing and payload.
    pub open spec fn bytes_nocrc(self) -> Seq<u8> {
        seq![
            PACKET_START,
            (self.data.len() % 256) as u8,
            self.seq,
            self.system_id,
            self.component_id,
            self.message_id,
        ] + self.data
    }

    /// The whole frame.
    pub open spec fn bytes(self) -> Seq<u8> {
        self.bytes_nocrc() + message::u16_le(self.checksum)
    }

    /// The bytes that the checksum is taken of: the frame after its start byte, and the seed byte of
    /// the message id.
    pub open spec fn checked_bytes(self, extra: u8) -> Seq<u8> {
        self.bytes_nocrc().skip(1) + seq![extra]
    }

    /// The checksum that the packet ought to have.
    pub open spec fn crc(self) -> u16 {
        mcrf4xx(self.checked_bytes(message::extra_crc_of(self.message_id)))
    }

    /// Whether the packet has the checksum that it ought to have.
    pub open spec fn intact(self) -> bool {
        self.checksum == self.crc()
    }

    /// The packet with another checksum.
    pub open spec fn with_checksum(self, checksum: u16) -> PacketView {
        PacketView { checksum, ..self }
    }

    /// The packet with the checksum that it ought to have.
    pub open spec fn sealed(self) -> PacketView {
        self.with_checksum(self.crc())
    }

    /// The message in the packet, if it is one of the dialect.
    pub open spec fn parsed(self) -> Option<message::TelemetryView> {
        message::message_in(self.message_id, self.data)
    }
}

impl MavPacket {
    /// Takes a frame apart.
    pub fn new(payload: &[u8]) -> (r: MavPacket)
        requires
            payload@.len() >= PACKET_OVERHEAD,
        ensures
            r@ == PacketView::of_bytes(payload@),
    {
        let n: usize = payload.len();
        MavPacket {
            seq: read_u8_at(payload, 2),
            system_id: read_u8_at(payload, 3),
            component_id: read_u8_at(payload, 4),
            message_id: read_u8_at(payload, 5),
            data: vstd::slice::slice_to_vec(vstd::slice::slice_subrange(payload, 6, n - 2)),
            checksum: read_u16_le_at(payload, n - 2),
        }
    }

    /// The message in the packet, if it is one of the dialect.
    pub fn parse(&self) -> (r: Option<Telemetry>)
        ensures
            self@.parsed() == (match r {
                Some(m) => Some(m@),
                None => None,
            }),
    {
        message::decode(self.message_id, self.data.as_slice())
    }

    /// The frame without its checksum.
    pub fn encode_nocrc(&self) -> (r: Vec<u8>)
        ensures
            r@ == self@.bytes_nocrc(),
    {
        let mut pkt: Vec<u8> = Vec::new();
        pkt.push(PACKET_START);
        pkt.push((self.data.len() % 256) as u8);
        pkt.push(self.seq);
        pkt.push(self.system_id);
        pkt.push(self.component_id);
        pkt.push(self.message_id);
        pkt.extend_from_slice(self.data.as_slice());
        assert(pkt@ =~= self@.bytes_nocrc());
        pkt
    }

    /// The whole frame.
    pub fn encode(&self) -> (r: Vec<u8>)
        ensures
            r@ == self@.bytes(),
    {
        let mut pkt: Vec<u8> = self.encode_nocrc();
        pkt.push((self.checksum % 256) as u8);
        pkt.push((self.checksum / 256) as u8);
        assert(pkt@ =~= self@.bytes());
        pkt
    }

    /// The bytes that the checksum is taken of, if `extra` is the seed byte of the message id.
    pub fn checked_bytes(&self, extra: u8) -> (r: Vec<u8>)
        ensures
            r@ == self@.checked_bytes(extra),
    {
        let mut pkt: Vec<u8> = self.encode_nocrc();
        let mut r: Vec<u8> = pkt.split_off(1);
        r.push(extra);
        assert(r@ =~= self@.checked_bytes(extra));
        r
    }

    /// The checksum that the packet ought to have.
    pub fn calc_crc(&self) -> (r: u16)
        ensures
            r == self@.crc(),
    {
        let bytes: Vec<u8> = self.checked_bytes(message::extra_crc(self.message_id));
        crc_of(bytes.as_slice())
    }

    /// Gives the packet the checksum that it ought to have.
    pub fn update_crc(&mut self)
        ensures
            final(self)@ == old(self)@.sealed(),
    {
        self.checksum = self.calc_crc();
    }

    /// Whether the packet has the checksum that it ought to have.
    pub fn check_crc(&self) -> (r: bool)
        ensures
            r == self@.intact(),
    {
        self.calc_crc() == self.checksum
    }
}

/// Taking apart what `encode` made gives the packet back, whatever its payload.
pub proof fn law_new_inverts_encode(p: PacketView)
    ensures
        p.bytes().len() >= PACKET_OVERHEAD,
        PacketView::of_bytes(p.bytes()) == p,
{
    let b = p.bytes();
    assert(b.subrange(6, b.len() - 2) =~= p.data);
    assert(b[b.len() - 2] == (p.checksum % 256) as u8);
    assert(b[b.len() - 1] == (p.checksum / 256) as u8);
}

/// Encoding what `new` took apart gives as many bytes, and the same from the third on. It gives all of
/// them back if and only if they are a frame whose length byte tells the length of its payload.
pub proof fn law_encode_inverts_new(bytes: Seq<u8>)
    requires
        bytes.len() >= PACKET_OVERHEAD,
    ensures
        PacketView::of_bytes(bytes).bytes().len() == bytes.len(),
        PacketView::of_bytes(bytes).bytes().skip(2) == bytes.skip(2),
        PacketView::of_bytes(bytes).bytes() == bytes <==> bytes[0] == PACKET_START && bytes[1] == (
        bytes.len() - PACKET_OVERHEAD) % 256,
{
    let n = bytes.len() as int;
    let p = PacketView::of_bytes(bytes);
    let lo = bytes[n - 2];
    let hi = bytes[n - 1];
    assert(p.checksum == lo + 256 * hi);
    assert(p.checksum % 256 == lo && p.checksum / 256 == hi);
    assert(p.bytes().skip(2) =~= bytes.skip(2));
    assert(p.bytes()[0] == PACKET_START);
    assert(p.bytes()[1] == (n - PACKET_OVERHEAD) % 256);
    assert forall|i: int| 2 <= i < n implies p.bytes()[i] == bytes[i] by {
        assert(p.bytes().skip(2)[i - 2] == bytes.skip(2)[i - 2]);
    }
    if bytes[0] == PACKET_START && bytes[1] == (n - PACKET_OVERHEAD) % 256 {
        assert(p.bytes() =~= bytes);
    }
}

/// A packet whose checksum was brought up to date is intact, and nothing else of it has changed.
pub proof fn law_sealed_is_intact(p: PacketView)
    ensures
        p.sealed().intact(),
        p.sealed().bytes_nocrc() == p.bytes_nocrc(),
        p.sealed().parsed() == p.parsed(),
        p.sealed().sealed() == p.sealed(),
{
}

/// No two checksums become one by the same byte, nor one checksum the same by two bytes.
proof fn lemma_crc_byte_is_injective(c: u16, d: u16, a: u8, b: u8)
    ensures
        crc_byte(c, a) == crc_byte(d, a) ==> c == d,
        crc_byte(c, a) == crc_byte(c, b) ==> a == b,
{
    assert(forall|x: u16, y: u16| #[trigger] crc_bit(x) == #[trigger] crc_bit(y) ==> x == y) by {
        assert forall|x: u16, y: u16| #[trigger] crc_bit(x) == #[trigger] crc_bit(y) implies x
            == y by {
            assert((if x & 1 == 1 {
                (x >> 1) ^ 0x8408
            } else {
                x >> 1
            }) == (if y & 1 == 1 {
                (y >> 1) ^ 0x8408
            } else {
                y >> 1
            }) ==> x == y) by (bit_vector);
        }
    }
    assert(c ^ (a as u16) == d ^ (a as u16) ==> c == d) by (bit_vector);
    assert(c ^ (a as u16) == c ^ (b as u16) ==> a == b) by (bit_vector);
}

/// One byte that is changed changes the checksum.
pub proof fn law_changed_byte_changes_crc(bytes: Seq<u8>, i: int, b: u8)
    requires
        0 <= i < bytes.len(),
        b != bytes[i],
    ensures
        mcrf4xx(bytes.update(i, b)) != mcrf4xx(bytes),
    decreases bytes.len(),
{
    let changed = bytes.update(i, b);
    let init = bytes.drop_last();
    if i == bytes.len() - 1 {
        assert(changed.drop_last() =~= init);
        lemma_crc_byte_is_injective(mcrf4xx(init), mcrf4xx(init), b, bytes[i]);
    } else {
        law_changed_byte_changes_crc(init, i, b);
        assert(changed.drop_last() =~= init.update(i, b));
        lemma_crc_byte_is_injective(
            mcrf4xx(init.update(i, b)),
            mcrf4xx(init),
            bytes.last(),
            bytes.last(),
        );
    }
}

/// A packet of whose payload one byte was changed is not intact.
pub proof fn law_damaged_payload_is_noticed(p: PacketView, i: int, b: u8)
    requires
        p.intact(),
        0 <= i < p.data.len(),
        b != p.data[i],
    ensures
        !(PacketView { data: p.data.update(i, b), ..p }).intact(),
{
    let extra = message::extra_crc_of(p.message_id);
    let damaged = PacketView { data: p.data.update(i, b), ..p };
    let bytes = p.checked_bytes(extra);
    assert(bytes[5 + i] == p.data[i]);
    assert(damaged.checked_bytes(extra) =~= bytes.update(5 + i, b));
    law_changed_byte_changes_crc(bytes, 5 + i, b);
}

/// A frame is the start byte, the length of the payload, the addressing, the payload and the checksum,
/// low byte first, whatever the length of the payload.
pub proof fn law_frame_layout(p: PacketView)
    ensures
        ({
            let b = p.bytes();
            let n = p.data.len() as int;
            &&& b.len() == n + 8
            &&& b[0] == 0xfe
            &&& b[1] == n % 256
            &&& b[2] == p.seq
            &&& b[3] == p.system_id
            &&& b[4] == p.component_id
            &&& b[5] == p.message_id
            &&& b.subrange(6, 6 + n) == p.data
            &&& b[6 + n] as int + 256 * (b[7 + n] as int) == p.checksum
            &&& p.bytes_nocrc() == b.take(6 + n)
        }),
{
    let b = p.bytes();
    let n = p.data.len() as int;
    assert(b.subrange(6, 6 + n) =~= p.data);
    assert(p.bytes_nocrc() =~= b.take(6 + n));
    assert(b[6 + n] == (p.checksum % 256) as u8);
    assert(b[7 + n] == (p.checksum / 256) as u8);
}

/// Taken apart, a frame of whatever length gives the addressing from its third to sixth byte, the
/// checksum from its last two, and the payload from all between.
pub proof fn law_frame_is_taken_apart(b: Seq<u8>)
    requires
        b.len() >= 8,
    ensures
        ({
            let p = PacketView::of_bytes(b);
            let n = b.len() as int;
            &&& p.seq == b[2]
            &&& p.system_id == b[3]
            &&& p.component_id == b[4]
            &&& p.message_id == b[5]
            &&& p.data.len() == n - 8
            &&& forall|i: int| 0 <= i < n - 8 ==> #[trigger] p.data[i] == b[6 + i]
            &&& p.checksum == b[n - 2] as int + 256 * (b[n - 1] as int)
        }),
{
}

/// The checksum is taken of the whole frame between the start byte and the checksum, and last of the
/// seed byte, whatever the length of the payload.
pub proof fn law_checksum_covers_frame_and_seed(p: PacketView, extra: u8)
    ensures
        ({
            let c = p.checked_bytes(extra);
            let n = p.data.len() as int;
            &&& c.len() == n + 6
            &&& c[0] == n % 256
            &&& c[1] == p.seq
            &&& c[2] == p.system_id
            &&& c[3] == p.component_id
            &&& c[4] == p.message_id
            &&& c.subrange(5, 5 + n) == p.data
            &&& c.last() == extra
        }),
{
    let c = p.checked_bytes(extra);
    let n = p.data.len() as int;
    assert(c.subrange(5, 5 + n) =~= p.data);
}

/// Another seed byte gives another checksum, for every packet.
pub proof fn law_seed_byte_matters(p: PacketView, a: u8, b: u8)
    requires
        a != b,
    ensures
        mcrf4xx(p.checked_bytes(a)) != mcrf4xx(p.checked_bytes(b)),
{
    law_checksum_covers_frame_and_seed(p, a);
    law_checksum_covers_frame_and_seed(p, b);
    let n = p.data.len() as int;
    let c = p.checked_bytes(a);
    let d = p.checked_bytes(b);
    assert(d =~= c.update(n + 5, b)) by {
        assert forall|i: int| 0 <= i < n + 6 implies d[i] == c.update(n + 5, b)[i] by {
            if 5 <= i < n + 5 {
                assert(c.subrange(5, 5 + n)[i - 5] == c[i]);
                assert(d.subrange(5, 5 + n)[i - 5] == d[i]);
            }
        }
    }
    law_changed_byte_changes_crc(c, n + 5, b);
}

/// A packet is intact if and only if its checksum is the CRC of its bytes from the length to the end
/// of the payload and of the seed byte of its message id.
pub proof fn law_intact_is_a_right_checksum(p: PacketView)
    ensures
        ({
            let b = p.bytes();
            let covered = b.subrange(1, b.len() - 2) + seq![message::extra_crc_of(p.message_id)];
            &&& p.crc() == mcrf4xx(covered)
            &&& p.intact() <==> p.checksum == mcrf4xx(covered)
        }),
{
    let b = p.bytes();
    let extra = message::extra_crc_of(p.message_id);
    assert(b.subrange(1, b.len() - 2) + seq![extra] =~= p.checked_bytes(extra));
}

/// To bring the checksum up to date changes nothing else, and to give another checksum neither.
pub proof fn law_sealing_keeps_the_rest(p: PacketView, checksum: u16)
    ensures
        ({
            let q = p.sealed();
            &&& q.seq == p.seq
            &&& q.system_id == p.system_id
            &&& q.component_id == p.component_id
            &&& q.message_id == p.message_id
            &&& q.data == p.data
            &&& q.checksum == p.crc()
        }),
        ({
            let q = p.with_checksum(checksum);
            &&& q.seq == p.seq
            &&& q.system_id == p.system_id
            &&& q.component_id == p.component_id
            &&& q.message_id == p.message_id
            &&& q.data == p.data
            &&& q.checksum == checksum
        }),
{
}

/// A packet is damaged if its number, its sender or its checksum was changed.
pub proof fn law_damaged_header_is_noticed(p: PacketView, b: u8, checksum: u16)
    requires
        p.intact(),
    ensures
        b != p.seq ==> !(PacketView { seq: b, ..p }).intact(),
        b != p.system_id ==> !(PacketView { system_id: b, ..p }).intact(),
        b != p.component_id ==> !(PacketView { component_id: b, ..p }).intact(),
        checksum != p.checksum ==> !(PacketView { checksum, ..p }).intact(),
{
    let extra = message::extra_crc_of(p.message_id);
    let c = p.checked_bytes(extra);
    if b != p.seq {
        assert((PacketView { seq: b, ..p }).checked_bytes(extra) =~= c.update(1, b));
        law_changed_byte_changes_crc(c, 1, b);
    }
    if b != p.system_id {
        assert((PacketView { system_id: b, ..p }).checked_bytes(extra) =~= c.update(2, b));
        law_changed_byte_changes_crc(c, 2, b);
    }
    if b != p.component_id {
        assert((PacketView { component_id: b, ..p }).checked_bytes(extra) =~= c.update(3, b));
        law_changed_byte_changes_crc(c, 3, b);
    }
    assert((PacketView { checksum, ..p }).checked_bytes(extra) =~= c);
}

/// What is said of a packet is what it holds, and the message in it goes by its id and payload.
pub proof fn law_packet_view_holds_the_fields(p: MavPacket)
    ensures
        p@.seq == p.seq,
        p@.system_id == p.system_id,
        p@.component_id == p.component_id,
        p@.message_id == p.message_id,
        p@.data == p.data@,
        p@.checksum == p.checksum,
        p@.parsed() == message::message_in(p.message_id, p.data@),
{
}

} // verus!
