//! The proxy's binary encoding of packets: integers big-endian, enum tags and
//! absent options as nothing at all. Text takes two forms, the ones the packet
//! parser reads: a player name is a bytestring (a `u16` length, then its UTF-8
//! bytes); a chat message is a `u16` followed by UTF-16 code units, the form in
//! which Minetest clients send chat, so that a chat line re-encoded by the proxy
//! is again what the server expects. `serialize_str`, the encoding of strings
//! in general, writes the string's UTF-8 length and then its UTF-16 code units.
use vstd::prelude::*;
use vstd::utf8::*;
use byteorder::{BigEndian, ByteOrder};
use crate::packet::{
    BasePacket, BasePacketType, ControlPacketType, DataPacket, DataView, Packet, PacketView, ToServerChatMessage, ToServerInit,
};
use crate::text::{char_utf16, utf16_encode};
use vstd::std_specs::iter::IteratorSpec;
use vstd::string::{next_post, StringExecFns};

verus! {

/// Declares `std::io::Error`, which `ErrorKind::Io` carries without looking
/// into it.
#[verifier::external_type_specification]
#[verifier::external_body]
pub struct ExIoError(std::io::Error);

/// Why serialization failed.
#[derive(Debug)]
pub enum ErrorKind {
    Io(std::io::Error),
    Custom(String),
}

pub type Error = Box<ErrorKind>;

/// Calls `std::io::Error`'s `Display` through `format!`; the text depends on the
/// operating system, so nothing is stated of it.
#[verifier::external_body]
fn io_error_text(err: &std::io::Error) -> String {
    format!("{}", err)
}

impl ErrorKind {
    /// The message of the error: the text of a custom error as it is, an I/O
    /// error prefixed with `io error: `.
    pub fn to_string(&self) -> (r: String)
        ensures
            self matches ErrorKind::Custom(msg) ==> r@ == msg@,
            self matches ErrorKind::Io(_) ==> r@.take(10) == "io error: "@,
    {
        match self {
            ErrorKind::Io(err) => {
                let mut text = String::from_str("io error: ");
                proof {
                    reveal_strlit("io error: ");
                }
                let ghost prefix = text@;
                assert(prefix.len() == 10);
                let detail = io_error_text(err);
                text.append(detail.as_str());
                assert(text@.take(10) =~= prefix);
                text
            },
            ErrorKind::Custom(msg) => msg.clone(),
        }
    }
}

/// The bytes of a `u16`, most significant first.
pub open spec fn u16_bytes(v: u16) -> Seq<u8> {
    seq![(v / 0x100) as u8, (v % 0x100) as u8]
}

/// The bytes of a `u32`, most significant first.
pub open spec fn u32_bytes(v: u32) -> Seq<u8> {
    seq![
        (v / 0x1000000) as u8,
        (v / 0x10000 % 0x100) as u8,
        (v / 0x100 % 0x100) as u8,
        (v % 0x100) as u8,
    ]
}

/// The bytes of a `u64`, most significant first.
pub open spec fn u64_bytes(v: u64) -> Seq<u8> {
    u32_bytes((v / 0x100000000) as u32) + u32_bytes((v % 0x100000000) as u32)
}

/// A sequence of `u16`s, each most significant byte first.
pub open spec fn units_bytes(units: Seq<u16>) -> Seq<u8>
    decreases units.len(),
{
    if units.len() == 0 {
        Seq::empty()
    } else {
        u16_bytes(units[0]) + units_bytes(units.drop_first())
    }
}

/// A string: its UTF-8 length in bytes, cut to 16 bits, then its UTF-16 code units.
pub open spec fn str_bytes(text: Seq<char>) -> Seq<u8> {
    u16_bytes((vstd::utf8::encode_utf8(text).len() % 0x10000) as u16) + units_bytes(utf16_encode(text))
}

/// A byte string: its length, cut to 16 bits, then the bytes.
pub open spec fn bytes_field(bytes: Seq<u8>) -> Seq<u8> {
    u16_bytes((bytes.len() % 0x10000) as u16) + bytes
}

/// An optional `u16`: its bytes if present, nothing if absent.
pub open spec fn opt_u16_bytes(v: Option<u16>) -> Seq<u8> {
    match v {
        Some(x) => u16_bytes(x),
        None => Seq::empty(),
    }
}

/// The encoding of a base packet: its fields in order, the kinds (enum tags) as nothing.
pub open spec fn base_packet_bytes(b: BasePacket) -> Seq<u8>
    decreases b,
{
    match b {
        BasePacket::ControlPacket { base_packet_id, controltype_id, seqnum, peer_id_new, .. } => seq![
            base_packet_id,
            controltype_id,
        ] + opt_u16_bytes(seqnum) + opt_u16_bytes(peer_id_new),
        BasePacket::OriginalPacket { base_packet_id, .. } => seq![base_packet_id],
        BasePacket::SplitPacket { base_packet_id, seqnum, chunk_count, chunk_num, .. } => seq![
            base_packet_id,
        ] + u16_bytes(seqnum) + u16_bytes(chunk_count) + u16_bytes(chunk_num),
        BasePacket::ReliablePacket { base_packet_id, seqnum, inner_base_packet, .. } => seq![
            base_packet_id,
        ] + u16_bytes(seqnum) + match inner_base_packet {
            Some(inner) => base_packet_bytes(*inner),
            None => Seq::empty(),
        },
    }
}

/// The encoding of a data packet: its fields in order.
pub open spec fn data_packet_bytes(d: DataView) -> Seq<u8> {
    match d {
        DataView::Init(i) => u16_bytes(i.id) + seq![i.max_client_serialization_version] + u16_bytes(
            i.supp_compr_modes,
        ) + u16_bytes(i.min_net_proto_version) + u16_bytes(i.max_net_proto_version) + bytes_field(
            vstd::utf8::encode_utf8(i.player_name),
        ),
        DataView::Chat(c) => u16_bytes(c.id) + str_bytes(c.message),
    }
}

/// The encoding of a packet: header fields, base packet, then the data packet if any.
pub open spec fn packet_bytes(p: PacketView) -> Seq<u8> {
    u32_bytes(p.protocol_id) + u16_bytes(p.sender_peer_id) + seq![p.channel] + base_packet_bytes(
        p.base_packet,
    ) + match p.data_packet {
        Some(d) => data_packet_bytes(d),
        None => Seq::empty(),
    }
}

/// The bytes of two unit sequences, one after the other.
pub proof fn lemma_units_bytes_append(a: Seq<u16>, b: Seq<u16>)
    ensures
        units_bytes(a + b) == units_bytes(a) + units_bytes(b),
    decreases a.len(),
{
    if a.len() == 0 {
        assert(a + b =~= b);
    } else {
        lemma_units_bytes_append(a.drop_first(), b);
        assert((a + b).drop_first() =~= a.drop_first() + b);
    }
}

/// Calls `BigEndian::write_u16` on a two-byte buffer, which then holds `n` most
/// significant byte first.
#[verifier::external_body]
fn be_u16_bytes(n: u16) -> (b: [u8; 2])
    ensures
        b@ == u16_bytes(n),
{
    let mut b = [0u8; 2];
    BigEndian::write_u16(&mut b, n);
    b
}

/// Calls `BigEndian::write_u32` on a four-byte buffer, which then holds `n` most
/// significant byte first.
#[verifier::external_body]
fn be_u32_bytes(n: u32) -> (b: [u8; 4])
    ensures
        b@ == u32_bytes(n),
{
    let mut b = [0u8; 4];
    BigEndian::write_u32(&mut b, n);
    b
}

/// Calls `BigEndian::write_u64` on an eight-byte buffer, which then holds `n` most
/// significant byte first.
#[verifier::external_body]
fn be_u64_bytes(n: u64) -> (b: [u8; 8])
    ensures
        b@ == u64_bytes(n),
{
    let mut b = [0u8; 8];
    BigEndian::write_u64(&mut b, n);
    b
}

/// A serializer that encodes values into a writer.
pub struct Serializer<W> {
    writer: W,
}

impl<W> Serializer<W> {
    /// The writer the serializer appends to.
    pub closed spec fn writer(&self) -> W {
        self.writer
    }

    /// Creates a new serializer with the given writer.
    pub fn new(w: W) -> (s: Serializer<W>)
        ensures
            s.writer() == w,
    {
        Serializer { writer: w }
    }
}

impl Serializer<Vec<u8>> {
    /// The bytes written so far.
    pub open spec fn written(&self) -> Seq<u8> {
        self.writer()@
    }

    /// Gives back the writer.
    pub fn into_inner(self) -> (w: Vec<u8>)
        ensures
            w@ == self.written(),
    {
        self.writer
    }

    /// Appends `bytes` to the writer.
    fn write_all(&mut self, bytes: &[u8])
        ensures
            final(self).written() == old(self).written() + bytes@,
    {
        let mut i: usize = 0;
        while i < bytes.len()
            invariant
                i <= bytes@.len(),
                self.written() == old(self).written() + bytes@.take(i as int),
            decreases bytes@.len() - i,
        {
            self.writer.push(bytes[i]);
            i = i + 1;
            assert(self.written() =~= old(self).written() + bytes@.take(i as int));
        }
        assert(bytes@.take(bytes@.len() as int) =~= bytes@);
    }

    /// The unit value: nothing.
    pub fn serialize_unit(&mut self) -> (r: Result<(), Error>)
        ensures
            r is Ok,
            final(self).written() == old(self).written(),
    {
        Ok(())
    }

    /// A boolean: one byte, 1 or 0.
    pub fn serialize_bool(&mut self, v: bool) -> (r: Result<(), Error>)
        ensures
            r is Ok,
            final(self).written() == old(self).written() + seq![if v { 1u8 } else { 0u8 }],
    {
        self.writer.push(if v { 1 } else { 0 });
        Ok(())
    }

    /// A `u8`: the byte itself.
    pub fn serialize_u8(&mut self, v: u8) -> (r: Result<(), Error>)
        ensures
            r is Ok,
            final(self).written() == old(self).written() + seq![v],
    {
        self.writer.push(v);
        Ok(())
    }

    /// A `u16`: two bytes, big-endian.
    pub fn serialize_u16(&mut self, v: u16) -> (r: Result<(), Error>)
        ensures
            r is Ok,
            final(self).written() == old(self).written() + u16_bytes(v),
    {
        let b = be_u16_bytes(v);
        self.write_all(&b);
        Ok(())
    }

    /// A `u32`: four bytes, big-endian.
    pub fn serialize_u32(&mut self, v: u32) -> (r: Result<(), Error>)
        ensures
            r is Ok,
            final(self).written() == old(self).written() + u32_bytes(v),
    {
        let b = be_u32_bytes(v);
        self.write_all(&b);
        Ok(())
    }

    /// A `u64`: eight bytes, big-endian.
    pub fn serialize_u64(&mut self, v: u64) -> (r: Result<(), Error>)
        ensures
            r is Ok,
            final(self).written() == old(self).written() + u64_bytes(v),
    {
        let b = be_u64_bytes(v);
        self.write_all(&b);
        Ok(())
    }

    /// An `i8`: its two's complement byte.
    pub fn serialize_i8(&mut self, v: i8) -> (r: Result<(), Error>)
        ensures
            r is Ok,
            final(self).written() == old(self).written() + seq![v as u8],
    {
        self.writer.push(v as u8);
        Ok(())
    }

    /// An `i16`: its two's complement, big-endian.
    pub fn serialize_i16(&mut self, v: i16) -> (r: Result<(), Error>)
        ensures
            r is Ok,
            final(self).written() == old(self).written() + u16_bytes(v as u16),
    {
        self.serialize_u16(v as u16)
    }

    /// An `i32`: its two's complement, big-endian.
    pub fn serialize_i32(&mut self, v: i32) -> (r: Result<(), Error>)
        ensures
            r is Ok,
            final(self).written() == old(self).written() + u32_bytes(v as u32),
    {
        self.serialize_u32(v as u32)
    }

    /// An `i64`: its two's complement, big-endian.
    pub fn serialize_i64(&mut self, v: i64) -> (r: Result<(), Error>)
        ensures
            r is Ok,
            final(self).written() == old(self).written() + u64_bytes(v as u64),
    {
        self.serialize_u64(v as u64)
    }

    /// A character: its UTF-8 bytes.
    pub fn serialize_char(&mut self, c: char) -> (r: Result<(), Error>)
        ensures
            r is Ok,
            final(self).written() == old(self).written() + encode_scalar(c as u32),
    {
        let e = encode_utf8(c);
        self.write_all(e.as_slice());
        Ok(())
    }

    /// A byte string: its length as a `u16`, then the bytes.
    pub fn serialize_bytes(&mut self, v: &[u8]) -> (r: Result<(), Error>)
        ensures
            r is Ok,
            final(self).written() == old(self).written() + bytes_field(v@),
    {
        let len = v.len();
        assert(len as u16 == (len % 0x10000) as u16) by (bit_vector);
        let _ = self.serialize_u16(len as u16);
        self.write_all(v);
        Ok(())
    }

    /// A string: its UTF-8 length in bytes as a `u16`, then its UTF-16 code units.
    pub fn serialize_str(&mut self, v: &str) -> (r: Result<(), Error>)
        ensures
            r is Ok,
            final(self).written() == old(self).written() + str_bytes(v@),
    {
        let len = v.as_bytes().len();
        assert(len as u16 == (len % 0x10000) as u16) by (bit_vector);
        let _ = self.serialize_u16(len as u16);
        let ghost goal = old(self).written() + str_bytes(v@);
        let mut chars = v.chars();
        proof {
            broadcast use vstd::string::axiom_spec_iter;

            assert(chars.remaining() == v@);
        }
        loop
            invariant
                self.written() + units_bytes(utf16_encode(chars.remaining())) == goal,
                chars.decrease() is Some,
            ensures
                self.written() + units_bytes(utf16_encode(chars.remaining())) == goal,
                chars.remaining().len() == 0,
            decreases chars.decrease()->0,
        {
            let ghost before = chars;
            let next = chars.next();
            proof {
                broadcast use vstd::string::next_postcondition;

                assert(next_post(&before, &chars, next));
            }
            match next {
                Some(c) => {
                    let ghost after = chars.remaining();
                    assert(before.remaining() == seq![c] + after) by {
                        assert(before.remaining() =~= seq![c] + before.remaining().drop_first());
                    }
                    let code = c as u32;
                    proof {
                        vstd::utf8::char_is_scalar(c);
                    }
                    if code < 0x10000 {
                        let _ = self.serialize_u16(code as u16);
                    } else {
                        let low = code - 0x10000;
                        assert(low / 0x400 < 0x400 && low % 0x400 < 0x400);
                        let _ = self.serialize_u16((0xD800 + low / 0x400) as u16);
                        let _ = self.serialize_u16((0xDC00 + low % 0x400) as u16);
                    }
                    proof {
                        let units = char_utf16(c);
                        assert((seq![c] + after).drop_first() =~= after);
                        lemma_units_bytes_append(units, utf16_encode(after));
                        if code < 0x10000 {
                            assert(units_bytes(units) =~= u16_bytes(code as u16)) by {
                                assert(units.drop_first() =~= Seq::<u16>::empty());
                                assert(units_bytes(units.drop_first()) =~= Seq::<u8>::empty());
                            }
                        } else {
                            assert(units_bytes(units) =~= u16_bytes(units[0]) + u16_bytes(units[1])) by {
                                let tail = units.drop_first();
                                assert(tail.drop_first() =~= Seq::<u16>::empty());
                                assert(units_bytes(tail.drop_first()) =~= Seq::<u8>::empty());
                                assert(tail[0] == units[1]);
                                assert(units_bytes(tail) =~= u16_bytes(units[1]));
                            }
                        }
                    }
                },
                None => {
                    break;
                },
            }
        }
        proof {
            assert(chars.remaining() =~= Seq::<char>::empty());
            assert(utf16_encode(chars.remaining()) =~= Seq::<u16>::empty());
            assert(units_bytes(Seq::<u16>::empty()) =~= Seq::<u8>::empty());
        }
        Ok(())
    }

    /// An absent option: nothing.
    pub fn serialize_none(&mut self) -> (r: Result<(), Error>)
        ensures
            r is Ok,
            final(self).written() == old(self).written(),
    {
        Ok(())
    }

    /// A variant without fields: nothing, not even its index.
    pub fn serialize_unit_variant(
        &mut self,
        _name: &'static str,
        _variant_index: u32,
        _variant: &'static str,
    ) -> (r: Result<(), Error>)
        ensures
            r is Ok,
            final(self).written() == old(self).written(),
    {
        Ok(())
    }
}

impl BasePacketType {
    /// A variant without fields: writes nothing.
    pub fn serialize(&self, serializer: &mut Serializer<Vec<u8>>) -> (r: Result<(), Error>)
        ensures
            r is Ok,
            final(serializer).written() == old(serializer).written(),
    {
        match self {
            BasePacketType::CONTROL => serializer.serialize_unit_variant("BasePacketType", 0, "CONTROL"),
            BasePacketType::ORIGINAL => serializer.serialize_unit_variant("BasePacketType", 1, "ORIGINAL"),
            BasePacketType::SPLIT => serializer.serialize_unit_variant("BasePacketType", 2, "SPLIT"),
            BasePacketType::RELIABLE => serializer.serialize_unit_variant("BasePacketType", 3, "RELIABLE"),
            BasePacketType::UNKNOWN => serializer.serialize_unit_variant("BasePacketType", 4, "UNKNOWN"),
        }
    }
}

impl ControlPacketType {
    /// A variant without fields: writes nothing.
    pub fn serialize(&self, serializer: &mut Serializer<Vec<u8>>) -> (r: Result<(), Error>)
        ensures
            r is Ok,
            final(serializer).written() == old(serializer).written(),
    {
        match self {
            ControlPacketType::CONTROLTYPE_ACK => serializer.serialize_unit_variant(
                "ControlPacketType",
                0,
                "CONTROLTYPE_ACK",
            ),
            ControlPacketType::CONTROLTYPE_SET_PEER_ID => serializer.serialize_unit_variant(
                "ControlPacketType",
                1,
                "CONTROLTYPE_SET_PEER_ID",
            ),
            ControlPacketType::CONTROLTYPE_PING => serializer.serialize_unit_variant(
                "ControlPacketType",
                2,
                "CONTROLTYPE_PING",
            ),
            ControlPacketType::CONTROLTYPE_DISCO => serializer.serialize_unit_variant(
                "ControlPacketType",
                3,
                "CONTROLTYPE_DISCO",
            ),
            ControlPacketType::CONTROLTYPE_UNKNOWN => serializer.serialize_unit_variant(
                "ControlPacketType",
                4,
                "CONTROLTYPE_UNKNOWN",
            ),
        }
    }
}

impl BasePacket {
    /// Writes the fields in declaration order; the kinds, being variants
    /// without fields, write nothing.
    pub fn serialize(&self, serializer: &mut Serializer<Vec<u8>>) -> (r: Result<(), Error>)
        ensures
            r is Ok,
            final(serializer).written() == old(serializer).written() + base_packet_bytes(*self),
        decreases self,
    {
        match self {
            BasePacket::ControlPacket {
                base_packet_type,
                controltype,
                base_packet_id,
                controltype_id,
                seqnum,
                peer_id_new,
            } => {
                base_packet_type.serialize(serializer)?;
                controltype.serialize(serializer)?;
                serializer.serialize_u8(*base_packet_id)?;
                serializer.serialize_u8(*controltype_id)?;
                match seqnum {
                    Some(v) => serializer.serialize_u16(*v)?,
                    None => serializer.serialize_none()?,
                }
                match peer_id_new {
                    Some(v) => serializer.serialize_u16(*v)?,
                    None => serializer.serialize_none()?,
                }
            },
            BasePacket::OriginalPacket { base_packet_type, base_packet_id } => {
                base_packet_type.serialize(serializer)?;
                serializer.serialize_u8(*base_packet_id)?;
            },
            BasePacket::SplitPacket {
                base_packet_type,
                base_packet_id,
                seqnum,
                chunk_count,
                chunk_num,
            } => {
                base_packet_type.serialize(serializer)?;
                serializer.serialize_u8(*base_packet_id)?;
                serializer.serialize_u16(*seqnum)?;
                serializer.serialize_u16(*chunk_count)?;
                serializer.serialize_u16(*chunk_num)?;
            },
            BasePacket::ReliablePacket {
                base_packet_type,
                base_packet_id,
                seqnum,
                inner_base_packet,
            } => {
                base_packet_type.serialize(serializer)?;
                serializer.serialize_u8(*base_packet_id)?;
                serializer.serialize_u16(*seqnum)?;
                match inner_base_packet {
                    Some(inner) => inner.serialize(serializer)?,
                    None => serializer.serialize_none()?,
                }
            },
        }
        Ok(())
    }
}

impl ToServerInit {
    /// Writes the fields in declaration order.
    pub fn serialize(&self, serializer: &mut Serializer<Vec<u8>>) -> (r: Result<(), Error>)
        ensures
            r is Ok,
            final(serializer).written() == old(serializer).written() + data_packet_bytes(
                DataView::Init(self@),
            ),
    {
        serializer.serialize_u16(self.id)?;
        serializer.serialize_u8(self.max_client_serialization_version)?;
        serializer.serialize_u16(self.supp_compr_modes)?;
        serializer.serialize_u16(self.min_net_proto_version)?;
        serializer.serialize_u16(self.max_net_proto_version)?;
        serializer.serialize_bytes(self.player_name.as_str().as_bytes())?;
        Ok(())
    }
}

impl ToServerChatMessage {
    /// Writes the fields in declaration order.
    pub fn serialize(&self, serializer: &mut Serializer<Vec<u8>>) -> (r: Result<(), Error>)
        ensures
            r is Ok,
            final(serializer).written() == old(serializer).written() + data_packet_bytes(
                DataView::Chat(self@),
            ),
    {
        serializer.serialize_u16(self.id)?;
        serializer.serialize_str(self.message.as_str())?;
        Ok(())
    }
}

impl DataPacket {
    /// Writes the packet the variant holds; the variant itself writes nothing.
    pub fn serialize(&self, serializer: &mut Serializer<Vec<u8>>) -> (r: Result<(), Error>)
        ensures
            r is Ok,
            final(serializer).written() == old(serializer).written() + data_packet_bytes(self@),
    {
        match self {
            DataPacket::TOSERVER_INIT(d) => d.serialize(serializer),
            DataPacket::TOSERVER_CHAT_MESSAGE(d) => d.serialize(serializer),
        }
    }
}

impl Packet {
    /// Writes the fields in declaration order.
    pub fn serialize(&self, serializer: &mut Serializer<Vec<u8>>) -> (r: Result<(), Error>)
        ensures
            r is Ok,
            final(serializer).written() == old(serializer).written() + packet_bytes(self@),
    {
        serializer.serialize_u32(self.protocol_id)?;
        serializer.serialize_u16(self.sender_peer_id)?;
        serializer.serialize_u8(self.channel)?;
        self.base_packet.serialize(serializer)?;
        match &self.data_packet {
            Some(d) => d.serialize(serializer)?,
            None => serializer.serialize_none()?,
        }
        Ok(())
    }
}

/// Appends the encoding of `value` to `writer`.
pub fn serialize_into(writer: &mut Vec<u8>, value: &Packet) -> (r: Result<(), Error>)
    ensures
        r is Ok,
        final(writer)@ == old(writer)@ + packet_bytes(value@),
{
    let mut buf: Vec<u8> = Vec::new();
    std::mem::swap(&mut buf, writer);
    let mut serializer = Serializer::new(buf);
    let r = value.serialize(&mut serializer);
    *writer = serializer.into_inner();
    r
}

/// The encoding of `value`.
pub fn serialize(value: &Packet) -> (r: Result<Vec<u8>, Error>)
    ensures
        r matches Ok(bytes) && bytes@ == packet_bytes(value@),
{
    let mut writer = Vec::with_capacity(500);
    serialize_into(&mut writer, value)?;
    Ok(writer)
}

const TAG_CONT: u8 = 0b1000_0000;
const TAG_TWO_B: u8 = 0b1100_0000;
const TAG_THREE_B: u8 = 0b1110_0000;
const TAG_FOUR_B: u8 = 0b1111_0000;
const MAX_ONE_B: u32 = 0x80;
const MAX_TWO_B: u32 = 0x800;
const MAX_THREE_B: u32 = 0x10000;

/// The UTF-8 bytes of one character, right-aligned in a four-byte buffer.
pub struct EncodeUtf8 {
    buf: [u8; 4],
    pos: usize,
}

impl EncodeUtf8 {
    /// The encoded bytes, that is the buffer from `pos` on.
    pub closed spec fn bytes(&self) -> Seq<u8> {
        self.buf@.subrange(self.pos as int, 4)
    }

    #[verifier::type_invariant]
    closed spec fn wf(&self) -> bool {
        self.pos < 4
    }

    /// The encoded bytes of the character.
    pub fn as_slice(&self) -> (r: &[u8])
        ensures
            r@ == self.bytes(),
    {
        proof {
            use_type_invariant(self);
        }
        &self.buf[self.pos..4]
    }
}

/// Encodes `c` in UTF-8.
pub fn encode_utf8(c: char) -> (r: EncodeUtf8)
    ensures
        r.bytes() == encode_scalar(c as u32),
{
    let code = c as u32;
    proof {
        char_is_scalar(c);
    }
    let mut buf: [u8; 4] = [0; 4];
    let pos: usize = if code < MAX_ONE_B {
        buf[3] = code as u8;
        assert(code as u8 == leading_byte_width_1(code)) by (bit_vector)
            requires
                code < 0x80u32,
        ;
        3
    } else if code < MAX_TWO_B {
        buf[2] = (code >> 6 & 0x1F) as u8 | TAG_TWO_B;
        buf[3] = (code & 0x3F) as u8 | TAG_CONT;
        assert((code >> 6 & 0x1F) as u8 | 0xC0u8 == leading_byte_width_2(code)) by (bit_vector);
        assert((code & 0x3F) as u8 | 0x80u8 == last_continuation_byte(code)) by (bit_vector);
        2
    } else if code < MAX_THREE_B {
        buf[1] = (code >> 12 & 0x0F) as u8 | TAG_THREE_B;
        buf[2] = (code >> 6 & 0x3F) as u8 | TAG_CONT;
        buf[3] = (code & 0x3F) as u8 | TAG_CONT;
        assert((code >> 12 & 0x0F) as u8 | 0xE0u8 == leading_byte_width_3(code)) by (bit_vector);
        assert((code >> 6 & 0x3F) as u8 | 0x80u8 == second_last_continuation_byte(code))
            by (bit_vector);
        assert((code & 0x3F) as u8 | 0x80u8 == last_continuation_byte(code)) by (bit_vector);
        1
    } else {
        buf[0] = (code >> 18 & 0x07) as u8 | TAG_FOUR_B;
        buf[1] = (code >> 12 & 0x3F) as u8 | TAG_CONT;
        buf[2] = (code >> 6 & 0x3F) as u8 | TAG_CONT;
        buf[3] = (code & 0x3F) as u8 | TAG_CONT;
        assert((code >> 18 & 0x07) as u8 | 0xF0u8 == leading_byte_width_4(code)) by (bit_vector);
        assert((code >> 12 & 0x3F) as u8 | 0x80u8 == third_last_continuation_byte(code))
            by (bit_vector);
        assert((code >> 6 & 0x3F) as u8 | 0x80u8 == second_last_continuation_byte(code))
            by (bit_vector);
        assert((code & 0x3F) as u8 | 0x80u8 == last_continuation_byte(code)) by (bit_vector);
        0
    };
    let r = EncodeUtf8 { buf: buf, pos: pos };
    assert(r.bytes() =~= encode_scalar(code));
    r
}

} // verus!
