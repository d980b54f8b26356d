//! The packets a Minetest client sends, and the parser that reads them from a
//! datagram.
use vstd::prelude::*;
use vstd::slice::*;
use crate::text::{string_from_utf16, string_from_utf8, utf16_text_or_empty, utf8_text_or_empty};

verus! {

/// A datagram from a client: the transport header, the base packet and, where
/// one follows, a data packet.
#[derive(Debug, PartialEq, Eq)]
pub struct Packet {
    pub protocol_id: u32,
    pub sender_peer_id: u16,
    pub channel: u8,
    pub base_packet: BasePacket,
    pub data_packet: Option<DataPacket>,
}

/// The kind of a base packet, named by its first byte.
#[derive(Debug, Clone, Copy, PartialEq, Eq, Structural)]
pub enum BasePacketType {
    CONTROL,
    ORIGINAL,
    SPLIT,
    RELIABLE,
    UNKNOWN,
}

/// The transport layer of a datagram.
#[derive(Debug, PartialEq, Eq)]
pub enum BasePacket {
    ControlPacket {
        base_packet_type: BasePacketType,
        controltype: ControlPacketType,
        base_packet_id: u8,
        controltype_id: u8,
        seqnum: Option<u16>,
        peer_id_new: Option<u16>,
    },
    OriginalPacket { base_packet_type: BasePacketType, base_packet_id: u8 },
    SplitPacket {
        base_packet_type: BasePacketType,
        base_packet_id: u8,
        seqnum: u16,
        chunk_count: u16,
        chunk_num: u16,
    },
    ReliablePacket {
        base_packet_type: BasePacketType,
        base_packet_id: u8,
        seqnum: u16,
        inner_base_packet: Option<Box<BasePacket>>,
    },
}

/// The kind of a control packet, named by its second byte.
#[allow(non_camel_case_types)]
#[derive(Debug, Clone, Copy, PartialEq, Eq, Structural)]
pub enum ControlPacketType {
    CONTROLTYPE_ACK,
    CONTROLTYPE_SET_PEER_ID,
    CONTROLTYPE_PING,
    CONTROLTYPE_DISCO,
    CONTROLTYPE_UNKNOWN,
}

/// The first packet a client sends to join a server.
#[derive(Debug, Clone, PartialEq, Eq)]
pub struct ToServerInit {
    pub id: u16,
    pub max_client_serialization_version: u8,
    pub supp_compr_modes: u16,
    pub min_net_proto_version: u16,
    pub max_net_proto_version: u16,
    pub player_name: String,
}

/// A chat line typed by a player.
#[derive(Debug, Clone, PartialEq, Eq)]
pub struct ToServerChatMessage {
    pub id: u16,
    pub message: String,
}

/// The payload of a datagram, where the proxy understands it.
#[allow(non_camel_case_types)]
#[derive(Debug, Clone, PartialEq, Eq)]
pub enum DataPacket {
    TOSERVER_INIT(ToServerInit),
    TOSERVER_CHAT_MESSAGE(ToServerChatMessage),
}

/// The outcome of a parser: the number of bytes read and the value, more input
/// needed, or input that does not match.
#[derive(Debug, Clone, PartialEq, Eq)]
pub enum ParseResult<T> {
    Done(usize, T),
    Incomplete,
    Error,
}

impl<T> ParseResult<T> {
    /// The value of a finished parse; the remaining input is not looked at.
    pub fn to_full_result(self) -> (r: Option<T>)
        ensures
            r == (match self {
                ParseResult::Done(_, v) => Some(v),
                _ => None,
            }),
    {
        match self {
            ParseResult::Done(_, v) => Some(v),
            _ => None,
        }
    }
}

/// Abstract value of a `ToServerInit`.
pub struct InitView {
    pub id: u16,
    pub max_client_serialization_version: u8,
    pub supp_compr_modes: u16,
    pub min_net_proto_version: u16,
    pub max_net_proto_version: u16,
    pub player_name: Seq<char>,
}

/// Abstract value of a `ToServerChatMessage`.
pub struct ChatView {
    pub id: u16,
    pub message: Seq<char>,
}

/// Abstract value of a `DataPacket`.
pub enum DataView {
    Init(InitView),
    Chat(ChatView),
}

/// Abstract value of a `Packet`.
pub struct PacketView {
    pub protocol_id: u32,
    pub sender_peer_id: u16,
    pub channel: u8,
    pub base_packet: BasePacket,
    pub data_packet: Option<DataView>,
}

impl View for ToServerInit {
    type V = InitView;

    open spec fn view(&self) -> InitView {
        InitView {
            id: self.id,
            max_client_serialization_version: self.max_client_serialization_version,
            supp_compr_modes: self.supp_compr_modes,
            min_net_proto_version: self.min_net_proto_version,
            max_net_proto_version: self.max_net_proto_version,
            player_name: self.player_name@,
        }
    }
}

impl View for ToServerChatMessage {
    type V = ChatView;

    open spec fn view(&self) -> ChatView {
        ChatView { id: self.id, message: self.message@ }
    }
}

impl View for DataPacket {
    type V = DataView;

    open spec fn view(&self) -> DataView {
        match self {
            DataPacket::TOSERVER_INIT(d) => DataView::Init(d@),
            DataPacket::TOSERVER_CHAT_MESSAGE(d) => DataView::Chat(d@),
        }
    }
}

impl View for Packet {
    type V = PacketView;

    open spec fn view(&self) -> PacketView {
        PacketView {
            protocol_id: self.protocol_id,
            sender_peer_id: self.sender_peer_id,
            channel: self.channel,
            base_packet: self.base_packet,
            data_packet: match self.data_packet {
                Some(d) => Some(d@),
                None => None,
            },
        }
    }
}

impl<T: View> View for ParseResult<T> {
    type V = ParseResult<T::V>;

    open spec fn view(&self) -> ParseResult<T::V> {
        match self {
            ParseResult::Done(n, v) => ParseResult::Done(*n, v@),
            ParseResult::Incomplete => ParseResult::Incomplete,
            ParseResult::Error => ParseResult::Error,
        }
    }
}

/// The big-endian `u16` at offset `i`.
pub open spec fn be16_at(s: Seq<u8>, i: int) -> u16 {
    (s[i] as int * 0x100 + s[i + 1] as int) as u16
}

/// The big-endian `u32` at offset `i`.
pub open spec fn be32_at(s: Seq<u8>, i: int) -> u32 {
    (s[i] as int * 0x1000000 + s[i + 1] as int * 0x10000 + s[i + 2] as int * 0x100
        + s[i + 3] as int) as u32
}

/// Matching a literal prefix: the input disagrees with it, or is a proper prefix
/// of it, or starts with it.
pub open spec fn spec_tag(s: Seq<u8>, t: Seq<u8>) -> ParseResult<()> {
    let m = if s.len() < t.len() { s.len() } else { t.len() };
    if s.take(m as int) != t.take(m as int) {
        ParseResult::Error
    } else if s.len() < t.len() {
        ParseResult::Incomplete
    } else {
        ParseResult::Done(t.len() as usize, ())
    }
}

/// Matching the two-byte literal `a b`, as `spec_tag` does.
pub open spec fn spec_tag2(s: Seq<u8>, a: u8, b: u8) -> ParseResult<()> {
    if s.len() == 0 {
        ParseResult::Incomplete
    } else if s[0] != a {
        ParseResult::Error
    } else if s.len() < 2 {
        ParseResult::Incomplete
    } else if s[1] != b {
        ParseResult::Error
    } else {
        ParseResult::Done(2, ())
    }
}

/// A fixed-width field of `w` bytes whose value is `v`.
pub open spec fn spec_field<T>(s: Seq<u8>, w: int, v: T) -> ParseResult<T> {
    if s.len() < w {
        ParseResult::Incomplete
    } else {
        ParseResult::Done(w as usize, v)
    }
}


/// One byte.
fn be_u8(s: &[u8]) -> (r: ParseResult<u8>)
    ensures
        r == spec_field(s@, 1, if s@.len() >= 1 { s@[0] } else { 0 }),
{
    if s.len() < 1 {
        ParseResult::Incomplete
    } else {
        ParseResult::Done(1, s[0])
    }
}

/// A big-endian `u16`.
fn be_u16(s: &[u8]) -> (r: ParseResult<u16>)
    ensures
        r == spec_field(s@, 2, if s@.len() >= 2 { be16_at(s@, 0) } else { 0 }),
{
    if s.len() < 2 {
        ParseResult::Incomplete
    } else {
        ParseResult::Done(2, (s[0] as u16) * 0x100 + s[1] as u16)
    }
}

/// A big-endian `u32`.
fn be_u32(s: &[u8]) -> (r: ParseResult<u32>)
    ensures
        r == spec_field(s@, 4, if s@.len() >= 4 { be32_at(s@, 0) } else { 0 }),
{
    if s.len() < 4 {
        ParseResult::Incomplete
    } else {
        ParseResult::Done(
            4,
            (s[0] as u32) * 0x1000000 + (s[1] as u32) * 0x10000 + (s[2] as u32) * 0x100
                + s[3] as u32,
        )
    }
}

/// Matches the literal `t` at the start of `s`.
fn tag(s: &[u8], t: &[u8]) -> (r: ParseResult<()>)
    ensures
        r == spec_tag(s@, t@),
        r is Done ==> r == ParseResult::Done(t@.len() as usize, ()) && s@.len() >= t@.len()
            && forall|i: int| 0 <= i < t@.len() ==> s@[i] == t@[i],
        r is Incomplete ==> s@.len() < t@.len() && forall|i: int|
            0 <= i < s@.len() ==> s@[i] == t@[i],
        r is Error ==> exists|i: int| 0 <= i < s@.len() && i < t@.len() && s@[i] != t@[i],
{
    let m = if s.len() < t.len() { s.len() } else { t.len() };
    let mut i: usize = 0;
    while i < m
        invariant
            m == (if s@.len() < t@.len() { s@.len() } else { t@.len() }),
            i <= m,
            s@.take(i as int) == t@.take(i as int),
        decreases m - i,
    {
        if s[i] != t[i] {
            assert(s@.take(m as int)[i as int] != t@.take(m as int)[i as int]);
            return ParseResult::Error;
        }
        i = i + 1;
        assert(s@.take(i as int) =~= t@.take(i as int)) by {
            assert forall|j: int| 0 <= j < i implies s@.take(i as int)[j] == t@.take(i as int)[j] by {
                if j < i - 1 {
                    assert(s@.take(i - 1)[j] == t@.take(i - 1)[j]);
                }
            }
        }
    }
    assert forall|j: int| 0 <= j < m implies s@[j] == t@[j] by {
        assert(s@.take(m as int)[j] == t@.take(m as int)[j]);
    }
    if s.len() < t.len() {
        ParseResult::Incomplete
    } else {
        ParseResult::Done(t.len(), ())
    }
}


/// A control packet with the given kind, second byte and fields.
pub open spec fn control_packet_value(
    controltype: ControlPacketType,
    controltype_id: u8,
    seqnum: Option<u16>,
    peer_id_new: Option<u16>,
) -> BasePacket {
    BasePacket::ControlPacket {
        base_packet_type: BasePacketType::CONTROL,
        controltype,
        base_packet_id: 0,
        controltype_id,
        seqnum,
        peer_id_new,
    }
}

/// The wire format of control packets: `00 00 seqnum` (ack), `00 01 peer`
/// (set peer id), `00 02` (ping), `00 03` (disconnect).
pub open spec fn spec_control_packet(s: Seq<u8>) -> ParseResult<BasePacket> {
    if s.len() == 0 {
        ParseResult::Incomplete
    } else if s[0] != 0 {
        ParseResult::Error
    } else if s.len() < 2 {
        ParseResult::Incomplete
    } else if s[1] == 0 {
        spec_field(
            s,
            4,
            control_packet_value(
                ControlPacketType::CONTROLTYPE_ACK,
                0,
                Some(if s.len() >= 4 { be16_at(s, 2) } else { 0 }),
                None,
            ),
        )
    } else if s[1] == 1 {
        spec_field(
            s,
            4,
            control_packet_value(
                ControlPacketType::CONTROLTYPE_SET_PEER_ID,
                1,
                None,
                Some(if s.len() >= 4 { be16_at(s, 2) } else { 0 }),
            ),
        )
    } else if s[1] == 2 {
        ParseResult::Done(2, control_packet_value(ControlPacketType::CONTROLTYPE_PING, 2, None, None))
    } else if s[1] == 3 {
        ParseResult::Done(
            2,
            control_packet_value(ControlPacketType::CONTROLTYPE_DISCO, 3, None, None),
        )
    } else {
        ParseResult::Error
    }
}

/// The wire format of base packets: a control packet (first byte 0), `01` for an
/// original packet, `02 seqnum chunk_count chunk_num` for a split packet, and
/// `03 seqnum` followed by another base packet for a reliable packet.
pub open spec fn spec_base_packet(s: Seq<u8>) -> ParseResult<BasePacket>
    decreases s.len(),
{
    if s.len() == 0 {
        ParseResult::Incomplete
    } else if s[0] == 0 {
        spec_control_packet(s)
    } else if s[0] == 1 {
        ParseResult::Done(
            1,
            BasePacket::OriginalPacket {
                base_packet_type: BasePacketType::ORIGINAL,
                base_packet_id: 1,
            },
        )
    } else if s[0] == 2 {
        if s.len() < 7 {
            ParseResult::Incomplete
        } else {
            ParseResult::Done(
                7,
                BasePacket::SplitPacket {
                    base_packet_type: BasePacketType::SPLIT,
                    base_packet_id: 2,
                    seqnum: be16_at(s, 1),
                    chunk_count: be16_at(s, 3),
                    chunk_num: be16_at(s, 5),
                },
            )
        }
    } else if s[0] == 3 {
        if s.len() < 3 {
            ParseResult::Incomplete
        } else {
            match spec_base_packet(s.skip(3)) {
                ParseResult::Done(n, inner) => ParseResult::Done(
                    (n + 3) as usize,
                    BasePacket::ReliablePacket {
                        base_packet_type: BasePacketType::RELIABLE,
                        base_packet_id: 3,
                        seqnum: be16_at(s, 1),
                        inner_base_packet: Some(Box::new(inner)),
                    },
                ),
                ParseResult::Incomplete => ParseResult::Incomplete,
                ParseResult::Error => ParseResult::Error,
            }
        }
    } else {
        ParseResult::Error
    }
}

/// The base packets the parser produces: the kind, the id bytes and the
/// optional fields agree with one of the wire forms, and a reliable packet
/// carries a base packet of this kind.
pub open spec fn base_packet_well_formed(b: BasePacket) -> bool
    decreases b,
{
    match b {
        BasePacket::ControlPacket {
            base_packet_type,
            controltype,
            base_packet_id,
            controltype_id,
            seqnum,
            peer_id_new,
        } => {
            &&& base_packet_type == BasePacketType::CONTROL
            &&& base_packet_id == 0
            &&& {
                ||| controltype == ControlPacketType::CONTROLTYPE_ACK && controltype_id == 0
                    && seqnum is Some && peer_id_new is None
                ||| controltype == ControlPacketType::CONTROLTYPE_SET_PEER_ID && controltype_id == 1
                    && seqnum is None && peer_id_new is Some
                ||| controltype == ControlPacketType::CONTROLTYPE_PING && controltype_id == 2
                    && seqnum is None && peer_id_new is None
                ||| controltype == ControlPacketType::CONTROLTYPE_DISCO && controltype_id == 3
                    && seqnum is None && peer_id_new is None
            }
        },
        BasePacket::OriginalPacket { base_packet_type, base_packet_id } => base_packet_type
            == BasePacketType::ORIGINAL && base_packet_id == 1,
        BasePacket::SplitPacket { base_packet_type, base_packet_id, .. } => base_packet_type
            == BasePacketType::SPLIT && base_packet_id == 2,
        BasePacket::ReliablePacket { base_packet_type, base_packet_id, inner_base_packet, .. } => {
            &&& base_packet_type == BasePacketType::RELIABLE
            &&& base_packet_id == 3
            &&& inner_base_packet matches Some(inner) && base_packet_well_formed(*inner)
        },
    }
}

/// A base packet never claims more bytes than it was given.
pub proof fn lemma_base_packet_len(s: Seq<u8>)
    requires
        s.len() <= usize::MAX,
    ensures
        spec_base_packet(s) matches ParseResult::Done(n, _) ==> 0 < n <= s.len(),
    decreases s.len(),
{
    if s.len() >= 3 && s[0] == 3 {
        lemma_base_packet_len(s.skip(3));
    }
}

/// The bytes of `s` from `n` on.
fn rest(s: &[u8], n: usize) -> (r: &[u8])
    requires
        n <= s@.len(),
    ensures
        r@ == s@.skip(n as int),
        s@.len() <= usize::MAX,
{
    slice_subrange(s, n, s.len())
}

/// `00 00 seqnum`: acknowledges a reliable packet.
fn control_packet_ack(s: &[u8]) -> (r: ParseResult<BasePacket>)
    ensures
        r == (match spec_tag2(s@, 0, 0) {
            ParseResult::Done(_, _) => spec_control_packet(s@),
            ParseResult::Incomplete => ParseResult::Incomplete,
            ParseResult::Error => ParseResult::Error,
        }),
{
    let t: [u8; 2] = [0x00, 0x00];
    assert(t@ == seq![0u8, 0u8]);
    let r0 = tag(s, &t);
    assert(r0 == spec_tag2(s@, 0, 0)) by {
        assert(t@[0] == 0u8 && t@[1] == 0u8);
        if s@.len() >= 2 {
            assert(s@[0] == t@[0] && s@[1] == t@[1] ==> r0 is Done);
        }
    }
    match r0 {
        ParseResult::Done(n, _) => match be_u16(rest(s, n)) {
            ParseResult::Done(m, seqnum) => ParseResult::Done(
                n + m,
                BasePacket::ControlPacket {
                    base_packet_type: BasePacketType::CONTROL,
                    base_packet_id: 0x00,
                    controltype: ControlPacketType::CONTROLTYPE_ACK,
                    controltype_id: 0x00,
                    peer_id_new: None,
                    seqnum: Some(seqnum),
                },
            ),
            ParseResult::Incomplete => ParseResult::Incomplete,
            ParseResult::Error => ParseResult::Error,
        },
        ParseResult::Incomplete => ParseResult::Incomplete,
        ParseResult::Error => ParseResult::Error,
    }
}


/// `00 01 peer_id`: the server assigns the client its peer id.
fn control_packet_set_peer_id(s: &[u8]) -> (r: ParseResult<BasePacket>)
    ensures
        r == (match spec_tag2(s@, 0, 1) {
            ParseResult::Done(_, _) => spec_control_packet(s@),
            ParseResult::Incomplete => ParseResult::Incomplete,
            ParseResult::Error => ParseResult::Error,
        }),
{
    let t: [u8; 2] = [0x00, 0x01];
    assert(t@ == seq![0u8, 1u8]);
    let r0 = tag(s, &t);
    assert(r0 == spec_tag2(s@, 0, 1)) by {
        assert(t@[0] == 0u8 && t@[1] == 1u8);
        if s@.len() >= 2 {
            assert(s@[0] == t@[0] && s@[1] == t@[1] ==> r0 is Done);
        }
    }
    match r0 {
        ParseResult::Done(n, _) => match be_u16(rest(s, n)) {
            ParseResult::Done(m, peer_id_new) => ParseResult::Done(
                n + m,
                BasePacket::ControlPacket {
                    base_packet_type: BasePacketType::CONTROL,
                    base_packet_id: 0x00,
                    controltype: ControlPacketType::CONTROLTYPE_SET_PEER_ID,
                    controltype_id: 0x01,
                    peer_id_new: Some(peer_id_new),
                    seqnum: None,
                },
            ),
            ParseResult::Incomplete => ParseResult::Incomplete,
            ParseResult::Error => ParseResult::Error,
        },
        ParseResult::Incomplete => ParseResult::Incomplete,
        ParseResult::Error => ParseResult::Error,
    }
}

/// `00 02`: keeps the connection alive.
fn control_packet_ping(s: &[u8]) -> (r: ParseResult<BasePacket>)
    ensures
        r == (match spec_tag2(s@, 0, 2) {
            ParseResult::Done(_, _) => spec_control_packet(s@),
            ParseResult::Incomplete => ParseResult::Incomplete,
            ParseResult::Error => ParseResult::Error,
        }),
{
    let t: [u8; 2] = [0x00, 0x02];
    assert(t@ == seq![0u8, 2u8]);
    let r0 = tag(s, &t);
    assert(r0 == spec_tag2(s@, 0, 2)) by {
        assert(t@[0] == 0u8 && t@[1] == 2u8);
        if s@.len() >= 2 {
            assert(s@[0] == t@[0] && s@[1] == t@[1] ==> r0 is Done);
        }
    }
    match r0 {
        ParseResult::Done(n, _) => ParseResult::Done(
            n,
            BasePacket::ControlPacket {
                base_packet_type: BasePacketType::CONTROL,
                base_packet_id: 0x00,
                controltype: ControlPacketType::CONTROLTYPE_PING,
                controltype_id: 0x02,
                peer_id_new: None,
                seqnum: None,
            },
        ),
        ParseResult::Incomplete => ParseResult::Incomplete,
        ParseResult::Error => ParseResult::Error,
    }
}

/// `00 03`: the client leaves.
fn control_packet_disco(s: &[u8]) -> (r: ParseResult<BasePacket>)
    ensures
        r == (match spec_tag2(s@, 0, 3) {
            ParseResult::Done(_, _) => spec_control_packet(s@),
            ParseResult::Incomplete => ParseResult::Incomplete,
            ParseResult::Error => ParseResult::Error,
        }),
{
    let t: [u8; 2] = [0x00, 0x03];
    assert(t@ == seq![0u8, 3u8]);
    let r0 = tag(s, &t);
    assert(r0 == spec_tag2(s@, 0, 3)) by {
        assert(t@[0] == 0u8 && t@[1] == 3u8);
        if s@.len() >= 2 {
            assert(s@[0] == t@[0] && s@[1] == t@[1] ==> r0 is Done);
        }
    }
    match r0 {
        ParseResult::Done(n, _) => ParseResult::Done(
            n,
            BasePacket::ControlPacket {
                base_packet_type: BasePacketType::CONTROL,
                base_packet_id: 0x00,
                controltype: ControlPacketType::CONTROLTYPE_DISCO,
                controltype_id: 0x03,
                peer_id_new: None,
                seqnum: None,
            },
        ),
        ParseResult::Incomplete => ParseResult::Incomplete,
        ParseResult::Error => ParseResult::Error,
    }
}

/// The first control packet form that matches.
fn control_packet(s: &[u8]) -> (r: ParseResult<BasePacket>)
    ensures
        r == spec_control_packet(s@),
{
    let r = control_packet_ack(s);
    if !matches!(r, ParseResult::Error) {
        return r;
    }
    let r = control_packet_set_peer_id(s);
    if !matches!(r, ParseResult::Error) {
        return r;
    }
    let r = control_packet_ping(s);
    if !matches!(r, ParseResult::Error) {
        return r;
    }
    control_packet_disco(s)
}

/// `01`: a packet sent without reliability.
fn original_packet(s: &[u8]) -> (r: ParseResult<BasePacket>)
    ensures
        r == (if s@.len() == 0 {
            ParseResult::Incomplete
        } else if s@[0] == 1 {
            spec_base_packet(s@)
        } else {
            ParseResult::Error
        }),
{
    let t: [u8; 1] = [0x01];
    assert(t@ == seq![1u8]);
    match tag(s, &t) {
        ParseResult::Done(n, _) => ParseResult::Done(
            n,
            BasePacket::OriginalPacket { base_packet_type: BasePacketType::ORIGINAL, base_packet_id: 0x01 },
        ),
        ParseResult::Incomplete => ParseResult::Incomplete,
        ParseResult::Error => ParseResult::Error,
    }
}

/// `02 seqnum chunk_count chunk_num`: one chunk of a packet too large for one datagram.
fn split_packet(s: &[u8]) -> (r: ParseResult<BasePacket>)
    ensures
        r == (if s@.len() == 0 {
            ParseResult::Incomplete
        } else if s@[0] == 2 {
            spec_base_packet(s@)
        } else {
            ParseResult::Error
        }),
{
    let t: [u8; 1] = [0x02];
    assert(t@ == seq![2u8]);
    let n = match tag(s, &t) {
        ParseResult::Done(n, _) => n,
        ParseResult::Incomplete => return ParseResult::Incomplete,
        ParseResult::Error => return ParseResult::Error,
    };
    let (n, seqnum) = match be_u16(rest(s, n)) {
        ParseResult::Done(m, v) => (n + m, v),
        _ => return ParseResult::Incomplete,
    };
    let (n, chunk_count) = match be_u16(rest(s, n)) {
        ParseResult::Done(m, v) => (n + m, v),
        _ => return ParseResult::Incomplete,
    };
    let (n, chunk_num) = match be_u16(rest(s, n)) {
        ParseResult::Done(m, v) => (n + m, v),
        _ => return ParseResult::Incomplete,
    };
    ParseResult::Done(
        n,
        BasePacket::SplitPacket {
            base_packet_type: BasePacketType::SPLIT,
            base_packet_id: 0x02,
            seqnum,
            chunk_count,
            chunk_num,
        },
    )
}

/// `03 seqnum` and the packet it carries: a packet the peer must acknowledge.
fn reliable_packet(s: &[u8]) -> (r: ParseResult<BasePacket>)
    ensures
        r == (if s@.len() == 0 {
            ParseResult::Incomplete
        } else if s@[0] == 3 {
            spec_base_packet(s@)
        } else {
            ParseResult::Error
        }),
    decreases s@.len(), 0int,
{
    let t: [u8; 1] = [0x03];
    assert(t@ == seq![3u8]);
    let n = match tag(s, &t) {
        ParseResult::Done(n, _) => n,
        ParseResult::Incomplete => return ParseResult::Incomplete,
        ParseResult::Error => return ParseResult::Error,
    };
    let (n, seqnum) = match be_u16(rest(s, n)) {
        ParseResult::Done(m, v) => (n + m, v),
        _ => return ParseResult::Incomplete,
    };
    assert(n == 3);
    proof {
        lemma_base_packet_len(s@.skip(3));
    }
    match base_packet(rest(s, n)) {
        ParseResult::Done(m, inner) => ParseResult::Done(
            n + m,
            BasePacket::ReliablePacket {
                base_packet_type: BasePacketType::RELIABLE,
                base_packet_id: 0x03,
                inner_base_packet: Some(Box::new(inner)),
                seqnum,
            },
        ),
        ParseResult::Incomplete => ParseResult::Incomplete,
        ParseResult::Error => ParseResult::Error,
    }
}

/// Reads the base packet at the start of `s`.
pub fn base_packet(s: &[u8]) -> (r: ParseResult<BasePacket>)
    ensures
        r == spec_base_packet(s@),
    decreases s@.len(), 1int,
{
    let r = control_packet(s);
    if !matches!(r, ParseResult::Error) {
        return r;
    }
    let r = original_packet(s);
    if !matches!(r, ParseResult::Error) {
        return r;
    }
    let r = split_packet(s);
    if !matches!(r, ParseResult::Error) {
        return r;
    }
    reliable_packet(s)
}


/// The UTF-16 code units of a chat message: `n` big-endian `u16`s from offset 4.
pub open spec fn chat_units(s: Seq<u8>, n: int) -> Seq<u16> {
    Seq::new(n as nat, |i: int| be16_at(s, 4 + 2 * i))
}

/// The wire format of the data packets the proxy reads:
/// `00 02 max_ser_ver supp_compr_modes min_proto max_proto name_len name` (init, the
/// name in UTF-8) and `00 32 count units` (chat, the message as `count` UTF-16
/// code units). Text that does not decode becomes the empty string.
pub open spec fn spec_data_packet(s: Seq<u8>) -> ParseResult<DataView> {
    if s.len() == 0 {
        ParseResult::Incomplete
    } else if s[0] != 0 {
        ParseResult::Error
    } else if s.len() < 2 {
        ParseResult::Incomplete
    } else if s[1] == 2 {
        if s.len() < 11 {
            ParseResult::Incomplete
        } else {
            let n = be16_at(s, 9) as int;
            if s.len() < 11 + n {
                ParseResult::Incomplete
            } else {
                ParseResult::Done(
                    (11 + n) as usize,
                    DataView::Init(
                        InitView {
                            id: 2,
                            max_client_serialization_version: s[2],
                            supp_compr_modes: be16_at(s, 3),
                            min_net_proto_version: be16_at(s, 5),
                            max_net_proto_version: be16_at(s, 7),
                            player_name: utf8_text_or_empty(s.subrange(11, 11 + n)),
                        },
                    ),
                )
            }
        }
    } else if s[1] == 0x32 {
        if s.len() < 4 {
            ParseResult::Incomplete
        } else {
            let n = be16_at(s, 2) as int;
            if s.len() < 4 + 2 * n {
                ParseResult::Incomplete
            } else {
                ParseResult::Done(
                    (4 + 2 * n) as usize,
                    DataView::Chat(
                        ChatView { id: 0x32, message: utf16_text_or_empty(chat_units(s, n)) },
                    ),
                )
            }
        }
    } else {
        ParseResult::Error
    }
}

/// The wire format of a datagram: `protocol_id` (4 bytes), `sender_peer_id`
/// (2 bytes), `channel` (1 byte), a base packet and, where the rest of the input
/// reads as one, a data packet. Rest of input that cannot start a data packet is
/// left unread; rest of input too short to tell makes the whole datagram
/// incomplete.
pub open spec fn spec_packet(s: Seq<u8>) -> ParseResult<PacketView> {
    if s.len() < 7 {
        ParseResult::Incomplete
    } else {
        match spec_base_packet(s.skip(7)) {
            ParseResult::Done(n, b) => match spec_data_packet(s.skip(7 + n)) {
                ParseResult::Done(m, d) => ParseResult::Done(
                    (7 + n + m) as usize,
                    PacketView {
                        protocol_id: be32_at(s, 0),
                        sender_peer_id: be16_at(s, 4),
                        channel: s[6],
                        base_packet: b,
                        data_packet: Some(d),
                    },
                ),
                ParseResult::Error => ParseResult::Done(
                    (7 + n) as usize,
                    PacketView {
                        protocol_id: be32_at(s, 0),
                        sender_peer_id: be16_at(s, 4),
                        channel: s[6],
                        base_packet: b,
                        data_packet: None,
                    },
                ),
                ParseResult::Incomplete => ParseResult::Incomplete,
            },
            ParseResult::Incomplete => ParseResult::Incomplete,
            ParseResult::Error => ParseResult::Error,
        }
    }
}

/// `00 02 ...`: a client introduces itself.
fn toserver_init(s: &[u8]) -> (r: ParseResult<DataPacket>)
    ensures
        r@ == (match spec_tag2(s@, 0, 2) {
            ParseResult::Done(_, _) => spec_data_packet(s@),
            ParseResult::Incomplete => ParseResult::Incomplete,
            ParseResult::Error => ParseResult::Error,
        }),
{
    let t: [u8; 2] = [0x00, 0x02];
    assert(t@ == seq![0u8, 2u8]);
    let r0 = tag(s, &t);
    assert(r0 == spec_tag2(s@, 0, 2)) by {
        assert(t@[0] == 0u8 && t@[1] == 2u8);
        if s@.len() >= 2 {
            assert(s@[0] == t@[0] && s@[1] == t@[1] ==> r0 is Done);
        }
    }
    let n = match r0 {
        ParseResult::Done(n, _) => n,
        ParseResult::Incomplete => return ParseResult::Incomplete,
        ParseResult::Error => return ParseResult::Error,
    };
    let (n, max_client_serialization_version) = match be_u8(rest(s, n)) {
        ParseResult::Done(m, v) => (n + m, v),
        _ => return ParseResult::Incomplete,
    };
    let (n, supp_compr_modes) = match be_u16(rest(s, n)) {
        ParseResult::Done(m, v) => (n + m, v),
        _ => return ParseResult::Incomplete,
    };
    let (n, min_net_proto_version) = match be_u16(rest(s, n)) {
        ParseResult::Done(m, v) => (n + m, v),
        _ => return ParseResult::Incomplete,
    };
    let (n, max_net_proto_version) = match be_u16(rest(s, n)) {
        ParseResult::Done(m, v) => (n + m, v),
        _ => return ParseResult::Incomplete,
    };
    let (n, name_len) = match be_u16(rest(s, n)) {
        ParseResult::Done(m, v) => (n + m, v as usize),
        _ => return ParseResult::Incomplete,
    };
    assert(n == 11);
    if s.len() - n < name_len {
        return ParseResult::Incomplete;
    }
    let name_bytes = slice_to_vec(slice_subrange(s, n, n + name_len));
    let player_name = string_from_utf8(name_bytes).unwrap_or(String::new());
    ParseResult::Done(
        n + name_len,
        DataPacket::TOSERVER_INIT(
            ToServerInit {
                id: 0x02,
                max_client_serialization_version,
                supp_compr_modes,
                min_net_proto_version,
                max_net_proto_version,
                player_name,
            },
        ),
    )
}

/// `00 32 count units`: a chat line.
fn toserver_chat_message(s: &[u8]) -> (r: ParseResult<DataPacket>)
    ensures
        r@ == (match spec_tag2(s@, 0, 0x32) {
            ParseResult::Done(_, _) => spec_data_packet(s@),
            ParseResult::Incomplete => ParseResult::Incomplete,
            ParseResult::Error => ParseResult::Error,
        }),
{
    let t: [u8; 2] = [0x00, 0x32];
    assert(t@ == seq![0u8, 0x32u8]);
    let r0 = tag(s, &t);
    assert(r0 == spec_tag2(s@, 0, 0x32)) by {
        assert(t@[0] == 0u8 && t@[1] == 0x32u8);
        if s@.len() >= 2 {
            assert(s@[0] == t@[0] && s@[1] == t@[1] ==> r0 is Done);
        }
    }
    let n = match r0 {
        ParseResult::Done(n, _) => n,
        ParseResult::Incomplete => return ParseResult::Incomplete,
        ParseResult::Error => return ParseResult::Error,
    };
    let (n, count) = match be_u16(rest(s, n)) {
        ParseResult::Done(m, v) => (n + m, v as usize),
        _ => return ParseResult::Incomplete,
    };
    assert(n == 4);
    let mut units: Vec<u16> = Vec::new();
    let mut pos: usize = n;
    while units.len() < count
        invariant
            4 <= pos <= s@.len(),
            pos == 4 + 2 * units@.len(),
            units@.len() <= count,
            count == be16_at(s@, 2) as int,
            s@.len() >= 4,
            s@[0] == 0 && s@[1] == 0x32,
            units@ == chat_units(s@, units@.len() as int),
        decreases count - units@.len(),
    {
        match be_u16(rest(s, pos)) {
            ParseResult::Done(m, v) => {
                units.push(v);
                pos = pos + m;
                assert(units@ =~= chat_units(s@, units@.len() as int));
            },
            _ => return ParseResult::Incomplete,
        }
    }
    let message = string_from_utf16(units.as_slice()).unwrap_or(String::new());
    ParseResult::Done(pos, DataPacket::TOSERVER_CHAT_MESSAGE(ToServerChatMessage { id: 0x32, message }))
}

/// The first data packet form that matches.
pub fn data_packet(s: &[u8]) -> (r: ParseResult<DataPacket>)
    ensures
        r@ == spec_data_packet(s@),
{
    let r = toserver_init(s);
    if !matches!(r, ParseResult::Error) {
        return r;
    }
    toserver_chat_message(s)
}

/// Reads a datagram.
pub fn packet(s: &[u8]) -> (r: ParseResult<Packet>)
    ensures
        r@ == spec_packet(s@),
{
    let (n, protocol_id) = match be_u32(s) {
        ParseResult::Done(m, v) => (m, v),
        _ => return ParseResult::Incomplete,
    };
    let (n, sender_peer_id) = match be_u16(rest(s, n)) {
        ParseResult::Done(m, v) => (n + m, v),
        _ => return ParseResult::Incomplete,
    };
    let (n, channel) = match be_u8(rest(s, n)) {
        ParseResult::Done(m, v) => (n + m, v),
        _ => return ParseResult::Incomplete,
    };
    assert(n == 7);
    proof {
        lemma_base_packet_len(s@.skip(7));
    }
    let (n, base_packet) = match base_packet(rest(s, n)) {
        ParseResult::Done(m, v) => (n + m, v),
        ParseResult::Incomplete => return ParseResult::Incomplete,
        ParseResult::Error => return ParseResult::Error,
    };
    assert(s@.skip(7).skip(n - 7) =~= s@.skip(n as int));
    let (n, data_packet) = match data_packet(rest(s, n)) {
        ParseResult::Done(m, v) => (n + m, Some(v)),
        ParseResult::Incomplete => return ParseResult::Incomplete,
        ParseResult::Error => (n, None),
    };
    ParseResult::Done(n, Packet { protocol_id, sender_peer_id, channel, base_packet, data_packet })
}


/// The kind of base packet that a first byte names.
pub open spec fn base_packet_type_of(byte: u8) -> BasePacketType {
    if byte == 0 {
        BasePacketType::CONTROL
    } else if byte == 1 {
        BasePacketType::ORIGINAL
    } else if byte == 2 {
        BasePacketType::SPLIT
    } else if byte == 3 {
        BasePacketType::RELIABLE
    } else {
        BasePacketType::UNKNOWN
    }
}

/// The first byte of a base packet of the given kind; `UNKNOWN` has none of its
/// own and gives 0.
pub open spec fn base_packet_type_byte(t: BasePacketType) -> u8 {
    match t {
        BasePacketType::CONTROL => 0,
        BasePacketType::ORIGINAL => 1,
        BasePacketType::SPLIT => 2,
        BasePacketType::RELIABLE => 3,
        BasePacketType::UNKNOWN => 0,
    }
}

/// The kind of control packet that a second byte names.
pub open spec fn control_packet_type_of(byte: u8) -> ControlPacketType {
    if byte == 0 {
        ControlPacketType::CONTROLTYPE_ACK
    } else if byte == 1 {
        ControlPacketType::CONTROLTYPE_SET_PEER_ID
    } else if byte == 2 {
        ControlPacketType::CONTROLTYPE_PING
    } else if byte == 3 {
        ControlPacketType::CONTROLTYPE_DISCO
    } else {
        ControlPacketType::CONTROLTYPE_UNKNOWN
    }
}

impl From<u8> for BasePacketType {
    fn from(byte: u8) -> (r: Self) {
        match byte {
            0 => BasePacketType::CONTROL,
            1 => BasePacketType::ORIGINAL,
            2 => BasePacketType::SPLIT,
            3 => BasePacketType::RELIABLE,
            _ => BasePacketType::UNKNOWN,
        }
    }
}

impl vstd::std_specs::convert::FromSpecImpl<u8> for BasePacketType {
    open spec fn obeys_from_spec() -> bool {
        true
    }

    open spec fn from_spec(byte: u8) -> BasePacketType {
        base_packet_type_of(byte)
    }
}

impl From<BasePacketType> for u8 {
    fn from(t: BasePacketType) -> (r: u8) {
        match t {
            BasePacketType::CONTROL => 0,
            BasePacketType::ORIGINAL => 1,
            BasePacketType::SPLIT => 2,
            BasePacketType::RELIABLE => 3,
            BasePacketType::UNKNOWN => 0,
        }
    }
}

impl vstd::std_specs::convert::FromSpecImpl<BasePacketType> for u8 {
    open spec fn obeys_from_spec() -> bool {
        true
    }

    open spec fn from_spec(t: BasePacketType) -> u8 {
        base_packet_type_byte(t)
    }
}

impl From<u8> for ControlPacketType {
    fn from(byte: u8) -> (r: Self) {
        match byte {
            0 => ControlPacketType::CONTROLTYPE_ACK,
            1 => ControlPacketType::CONTROLTYPE_SET_PEER_ID,
            2 => ControlPacketType::CONTROLTYPE_PING,
            3 => ControlPacketType::CONTROLTYPE_DISCO,
            _ => ControlPacketType::CONTROLTYPE_UNKNOWN,
        }
    }
}

impl vstd::std_specs::convert::FromSpecImpl<u8> for ControlPacketType {
    open spec fn obeys_from_spec() -> bool {
        true
    }

    open spec fn from_spec(byte: u8) -> ControlPacketType {
        control_packet_type_of(byte)
    }
}

/// Converting a kind to its byte and back gives the kind again, for every kind
/// but `UNKNOWN`; converting a byte to its kind and back gives the byte for
/// bytes 0 to 3, and 0 for all others.
pub proof fn law_base_packet_type_bytes(t: BasePacketType, byte: u8)
    ensures
        t != BasePacketType::UNKNOWN ==> base_packet_type_of(base_packet_type_byte(t)) == t,
        base_packet_type_byte(base_packet_type_of(byte)) == (if byte <= 3 { byte } else { 0 }),
{
}


} // verus!
