//! How the parser and the serializer undo each other.
use vstd::prelude::*;
use vstd::utf8::{
    decode_utf8_encode_utf8, encode_utf8, encode_utf8_decode_utf8, encode_utf8_valid_utf8,
    is_ascii_chars, is_ascii_chars_encode_utf8, valid_utf8,
};
use crate::packet::{
    base_packet_well_formed, be16_at, be32_at, chat_units, spec_base_packet, spec_packet,
    spec_data_packet, BasePacket, ChatView, DataView, InitView, PacketView, ParseResult,
};
use crate::text::{
    law_utf16_decode_encode, lemma_utf16_encode_ascii, lemma_utf16_encode_decode, utf16_decode,
    utf16_encode, utf16_text_or_empty,
};
use crate::serializer::{
    base_packet_bytes, data_packet_bytes, packet_bytes, str_bytes, u16_bytes, u32_bytes,
    units_bytes,
};

verus! {

/// A `u16` written and read back.
pub proof fn lemma_u16_bytes(v: u16, s: Seq<u8>, i: int)
    requires
        0 <= i,
        i + 2 <= s.len(),
        s.subrange(i, i + 2) == u16_bytes(v),
    ensures
        be16_at(s, i) == v,
{
    assert(s[i] == s.subrange(i, i + 2)[0] && s[i + 1] == s.subrange(i, i + 2)[1]);
    assert((v / 0x100) as u8 as int * 0x100 + (v % 0x100) as u8 as int == v);
}

/// Two bytes read as a `u16` and written back.
pub proof fn lemma_be16_bytes(s: Seq<u8>, i: int)
    requires
        0 <= i,
        i + 2 <= s.len(),
    ensures
        u16_bytes(be16_at(s, i)) == s.subrange(i, i + 2),
{
    let a = s[i] as int;
    let b = s[i + 1] as int;
    assert((a * 0x100 + b) / 0x100 == a && (a * 0x100 + b) % 0x100 == b) by (nonlinear_arith)
        requires
            0 <= a < 0x100,
            0 <= b < 0x100,
    ;
    assert(u16_bytes(be16_at(s, i)) =~= s.subrange(i, i + 2));
}


/// Parsing the encoding of a well-formed base packet, whatever bytes follow it,
/// gives the packet back and reads exactly its encoding.
pub proof fn law_base_packet_parse_serialize(b: BasePacket, rest: Seq<u8>)
    requires
        base_packet_well_formed(b),
        base_packet_bytes(b).len() + rest.len() <= usize::MAX,
    ensures
        spec_base_packet(base_packet_bytes(b) + rest) == ParseResult::Done(
            base_packet_bytes(b).len() as usize,
            b,
        ),
    decreases b,
{
    let enc = base_packet_bytes(b);
    let s = enc + rest;
    match b {
        BasePacket::ControlPacket { seqnum, peer_id_new, .. } => {
            if let Some(v) = seqnum {
                assert(s.subrange(2, 4) =~= u16_bytes(v));
                lemma_u16_bytes(v, s, 2);
            }
            if let Some(v) = peer_id_new {
                assert(s.subrange(2, 4) =~= u16_bytes(v));
                lemma_u16_bytes(v, s, 2);
            }
            assert(s[0] == enc[0] && s[1] == enc[1]);
        },
        BasePacket::OriginalPacket { .. } => {
            assert(s[0] == enc[0]);
        },
        BasePacket::SplitPacket { seqnum, chunk_count, chunk_num, .. } => {
            assert(s.subrange(1, 3) =~= u16_bytes(seqnum));
            assert(s.subrange(3, 5) =~= u16_bytes(chunk_count));
            assert(s.subrange(5, 7) =~= u16_bytes(chunk_num));
            lemma_u16_bytes(seqnum, s, 1);
            lemma_u16_bytes(chunk_count, s, 3);
            lemma_u16_bytes(chunk_num, s, 5);
            assert(s[0] == enc[0]);
        },
        BasePacket::ReliablePacket { seqnum, inner_base_packet, .. } => {
            let inner = *inner_base_packet->0;
            let inner_enc = base_packet_bytes(inner);
            law_base_packet_parse_serialize(inner, rest);
            assert(s.subrange(1, 3) =~= u16_bytes(seqnum));
            lemma_u16_bytes(seqnum, s, 1);
            assert(s.skip(3) =~= inner_enc + rest);
            assert(s[0] == enc[0]);
            assert(Box::new(inner) == inner_base_packet->0);
        },
    }
}

/// A base packet read from bytes is well formed, and its encoding is exactly the
/// bytes it was read from.
pub proof fn law_base_packet_serialize_parse(s: Seq<u8>)
    requires
        s.len() <= usize::MAX,
    ensures
        spec_base_packet(s) matches ParseResult::Done(n, b) ==> base_packet_well_formed(b)
            && base_packet_bytes(b) == s.take(n as int),
    decreases s.len(),
{
    if let ParseResult::Done(n, b) = spec_base_packet(s) {
        if s[0] == 0 {
            if s[1] == 0 || s[1] == 1 {
                lemma_be16_bytes(s, 2);
                assert(base_packet_bytes(b) =~= s.take(n as int));
            } else {
                assert(base_packet_bytes(b) =~= s.take(n as int));
            }
        } else if s[0] == 1 {
            assert(base_packet_bytes(b) =~= s.take(n as int));
        } else if s[0] == 2 {
            lemma_be16_bytes(s, 1);
            lemma_be16_bytes(s, 3);
            lemma_be16_bytes(s, 5);
            assert(base_packet_bytes(b) =~= s.take(n as int));
        } else {
            law_base_packet_serialize_parse(s.skip(3));
            crate::packet::lemma_base_packet_len(s.skip(3));
            lemma_be16_bytes(s, 1);
            let m = (n - 3) as int;
            assert(s.skip(3).take(m) =~= s.subrange(3, n as int));
            assert(base_packet_bytes(b) =~= s.take(n as int));
        }
    }
}


/// A `u32` written and read back.
pub proof fn lemma_u32_bytes(v: u32, s: Seq<u8>, i: int)
    requires
        0 <= i,
        i + 4 <= s.len(),
        s.subrange(i, i + 4) == u32_bytes(v),
    ensures
        be32_at(s, i) == v,
{
    let w = s.subrange(i, i + 4);
    assert(s[i] == w[0] && s[i + 1] == w[1] && s[i + 2] == w[2] && s[i + 3] == w[3]);
    let x = v as int;
    assert((x / 0x1000000) * 0x1000000 + (x / 0x10000 % 0x100) * 0x10000 + (x / 0x100 % 0x100)
        * 0x100 + x % 0x100 == x) by (nonlinear_arith)
        requires
            0 <= x < 0x100000000,
    ;
}

/// Four bytes read as a `u32` and written back.
pub proof fn lemma_be32_bytes(s: Seq<u8>, i: int)
    requires
        0 <= i,
        i + 4 <= s.len(),
    ensures
        u32_bytes(be32_at(s, i)) == s.subrange(i, i + 4),
{
    let a = s[i] as int;
    let b = s[i + 1] as int;
    let c = s[i + 2] as int;
    let d = s[i + 3] as int;
    let x = a * 0x1000000 + b * 0x10000 + c * 0x100 + d;
    assert(x / 0x1000000 == a && x / 0x10000 % 0x100 == b && x / 0x100 % 0x100 == c && x % 0x100
        == d) by (nonlinear_arith)
        requires
            0 <= a < 0x100,
            0 <= b < 0x100,
            0 <= c < 0x100,
            0 <= d < 0x100,
            x == a * 0x1000000 + b * 0x10000 + c * 0x100 + d,
    ;
    assert(u32_bytes(be32_at(s, i)) =~= s.subrange(i, i + 4));
}

/// The bytes of a unit sequence hold unit `i` at offsets `2i` and `2i + 1`.
pub proof fn lemma_units_bytes_layout(units: Seq<u16>)
    ensures
        units_bytes(units).len() == 2 * units.len(),
        forall|i: int|
            0 <= i < units.len() ==> #[trigger] units_bytes(units).subrange(2 * i, 2 * i + 2)
                == u16_bytes(units[i]),
    decreases units.len(),
{
    if units.len() > 0 {
        let tail = units.drop_first();
        lemma_units_bytes_layout(tail);
        let all = units_bytes(units);
        assert forall|i: int| 0 <= i < units.len() implies #[trigger] all.subrange(2 * i, 2 * i + 2)
            == u16_bytes(units[i]) by {
            if i == 0 {
                assert(all.subrange(0, 2) =~= u16_bytes(units[0]));
            } else {
                assert(all.subrange(2 * i, 2 * i + 2) =~= units_bytes(tail).subrange(
                    2 * (i - 1),
                    2 * (i - 1) + 2,
                ));
                assert(tail[i - 1] == units[i]);
            }
        }
    }
}


/// Parsing the encoding of a chat message with ASCII text gives it back and
/// reads exactly its encoding.
proof fn lemma_chat_data_parse_serialize(c: ChatView, rest: Seq<u8>)
    requires
        c.id == 0x32,
        is_ascii_chars(c.message),
        c.message.len() < 0x10000,
    ensures
        spec_data_packet(data_packet_bytes(DataView::Chat(c)) + rest) == ParseResult::Done(
            data_packet_bytes(DataView::Chat(c)).len() as usize,
            DataView::Chat(c),
        ),
        data_packet_bytes(DataView::Chat(c)).len() == 4 + 2 * c.message.len(),
{
    let m = c.message;
    let data_enc = data_packet_bytes(DataView::Chat(c));
    let d = data_enc + rest;
    is_ascii_chars_encode_utf8(m);
    lemma_utf16_encode_ascii(m);
    let units = utf16_encode(m);
    lemma_units_bytes_layout(units);
    assert(data_enc =~= u16_bytes(0x32) + u16_bytes(m.len() as u16) + units_bytes(units));
    assert(d.subrange(2, 4) =~= u16_bytes(m.len() as u16));
    lemma_u16_bytes(m.len() as u16, d, 2);
    assert(d[0] == 0 && d[1] == 0x32);
    let n = m.len() as int;
    assert(chat_units(d, n) =~= units) by {
        assert forall|i: int| 0 <= i < n implies #[trigger] chat_units(d, n)[i] == units[i] by {
            assert(units_bytes(units).subrange(2 * i, 2 * i + 2) == u16_bytes(units[i]));
            assert(d.subrange(4 + 2 * i, 4 + 2 * i + 2) =~= units_bytes(units).subrange(
                2 * i,
                2 * i + 2,
            ));
            lemma_u16_bytes(units[i], d, 4 + 2 * i);
        }
    }
    law_utf16_decode_encode(m);
    assert(utf16_text_or_empty(chat_units(d, n)) == m);
}

/// Parsing the encoding of a join whose name takes fewer than 65536 bytes in
/// UTF-8 gives it back and reads exactly its encoding.
proof fn lemma_init_data_parse_serialize(i: InitView, rest: Seq<u8>)
    requires
        i.id == 2,
        encode_utf8(i.player_name).len() < 0x10000,
    ensures
        spec_data_packet(data_packet_bytes(DataView::Init(i)) + rest) == ParseResult::Done(
            data_packet_bytes(DataView::Init(i)).len() as usize,
            DataView::Init(i),
        ),
        data_packet_bytes(DataView::Init(i)).len() == 11 + encode_utf8(i.player_name).len(),
{
    let name = encode_utf8(i.player_name);
    let enc = data_packet_bytes(DataView::Init(i));
    let d = enc + rest;
    assert(enc =~= u16_bytes(2) + seq![i.max_client_serialization_version] + u16_bytes(
        i.supp_compr_modes,
    ) + u16_bytes(i.min_net_proto_version) + u16_bytes(i.max_net_proto_version) + u16_bytes(
        name.len() as u16,
    ) + name);
    assert(d.subrange(3, 5) =~= u16_bytes(i.supp_compr_modes));
    assert(d.subrange(5, 7) =~= u16_bytes(i.min_net_proto_version));
    assert(d.subrange(7, 9) =~= u16_bytes(i.max_net_proto_version));
    assert(d.subrange(9, 11) =~= u16_bytes(name.len() as u16));
    lemma_u16_bytes(i.supp_compr_modes, d, 3);
    lemma_u16_bytes(i.min_net_proto_version, d, 5);
    lemma_u16_bytes(i.max_net_proto_version, d, 7);
    lemma_u16_bytes(name.len() as u16, d, 9);
    assert(d[0] == 0 && d[1] == 2 && d[2] == i.max_client_serialization_version);
    assert(d.subrange(11, 11 + name.len() as int) =~= name);
    encode_utf8_valid_utf8(i.player_name);
    encode_utf8_decode_utf8(i.player_name);
}

/// A join read from bytes, whose re-encoding has the length of what was read
/// (that is, its name was UTF-8; a name that is not reads as the empty string),
/// encodes back to exactly those bytes.
proof fn lemma_init_data_serialize_parse(d: Seq<u8>)
    requires
        d.len() <= usize::MAX,
    ensures
        spec_data_packet(d) matches ParseResult::Done(n, DataView::Init(i)) ==> (
        data_packet_bytes(DataView::Init(i)).len() == n ==> data_packet_bytes(DataView::Init(i))
            == d.take(n as int)),
{
    if let ParseResult::Done(n, DataView::Init(i)) = spec_data_packet(d) {
        if data_packet_bytes(DataView::Init(i)).len() == n {
            let k = be16_at(d, 9) as int;
            let raw = d.subrange(11, 11 + k);
            if !valid_utf8(raw) {
                assert(raw.len() == 0);
                assert(raw =~= Seq::<u8>::empty());
                assert(valid_utf8(raw));
            }
            decode_utf8_encode_utf8(raw);
            assert(encode_utf8(i.player_name) == raw);
            lemma_be16_bytes(d, 3);
            lemma_be16_bytes(d, 5);
            lemma_be16_bytes(d, 7);
            lemma_be16_bytes(d, 9);
            assert(u16_bytes(2) =~= d.subrange(0, 2));
            assert(data_packet_bytes(DataView::Init(i)) =~= d.take(n as int));
        }
    }
}

/// The data packets whose encoding the parser reads back: a join with its id
/// and a name of fewer than 65536 bytes in UTF-8, and a chat line with its id
/// and ASCII text of fewer than 65536 characters. (A chat line's encoding gives
/// its length in UTF-8 bytes and its text in UTF-16 code units; only for ASCII
/// text do the two counts agree.)
pub open spec fn data_packet_reads_back(d: DataView) -> bool {
    match d {
        DataView::Init(i) => i.id == 2 && encode_utf8(i.player_name).len() < 0x10000,
        DataView::Chat(c) => c.id == 0x32 && is_ascii_chars(c.message) && c.message.len() < 0x10000,
    }
}

/// Parsing the encoding of a packet gives the packet back and reads exactly its
/// encoding, whatever bytes follow it, when the base packet is well formed and
/// the data packet is one the parser reads back.
pub proof fn law_packet_parse_serialize(p: PacketView, rest: Seq<u8>)
    requires
        base_packet_well_formed(p.base_packet),
        p.data_packet matches Some(d) && data_packet_reads_back(d),
        packet_bytes(p).len() + rest.len() <= usize::MAX,
    ensures
        spec_packet(packet_bytes(p) + rest) == ParseResult::Done(packet_bytes(p).len() as usize, p),
{
    let d = p.data_packet->0;
    let header = u32_bytes(p.protocol_id) + u16_bytes(p.sender_peer_id) + seq![p.channel];
    let base_enc = base_packet_bytes(p.base_packet);
    let data_enc = data_packet_bytes(d);
    let s = packet_bytes(p) + rest;
    assert(s =~= header + (base_enc + (data_enc + rest)));
    assert(s.subrange(0, 4) =~= u32_bytes(p.protocol_id));
    assert(s.subrange(4, 6) =~= u16_bytes(p.sender_peer_id));
    lemma_u32_bytes(p.protocol_id, s, 0);
    lemma_u16_bytes(p.sender_peer_id, s, 4);
    assert(s[6] == p.channel);
    assert(s.skip(7) =~= base_enc + (data_enc + rest));
    law_base_packet_parse_serialize(p.base_packet, data_enc + rest);
    let k = base_enc.len() as int;
    assert(s.skip(7 + k) =~= data_enc + rest);
    match d {
        DataView::Init(i) => lemma_init_data_parse_serialize(i, rest),
        DataView::Chat(c) => lemma_chat_data_parse_serialize(c, rest),
    }
}

/// A chat message read from bytes, with ASCII text of as many characters as code
/// units were read, encodes back to exactly those bytes.
proof fn lemma_chat_data_serialize_parse(d: Seq<u8>)
    requires
        d.len() <= usize::MAX,
    ensures
        spec_data_packet(d) matches ParseResult::Done(n, DataView::Chat(c)) ==> (is_ascii_chars(
            c.message,
        ) && data_packet_bytes(DataView::Chat(c)).len() == n ==> data_packet_bytes(
            DataView::Chat(c),
        ) == d.take(n as int)),
{
    if let ParseResult::Done(n, DataView::Chat(c)) = spec_data_packet(d) {
        let m = c.message;
        if is_ascii_chars(m) && data_packet_bytes(DataView::Chat(c)).len() == n {
            let count = be16_at(d, 2) as int;
            let units = chat_units(d, count);
            is_ascii_chars_encode_utf8(m);
            lemma_utf16_encode_ascii(m);
            lemma_units_bytes_layout(utf16_encode(m));
            assert(m.len() == count);
            if utf16_decode(units) is None {
                assert(units.len() == 0);
                assert(units =~= Seq::<u16>::empty());
            }
            lemma_utf16_encode_decode(units);
            assert(utf16_encode(m) == units);
            lemma_units_bytes_layout(units);
            assert(units_bytes(units) =~= d.subrange(4, 4 + 2 * count)) by {
                assert forall|i: int| 0 <= i < units_bytes(units).len() implies #[trigger] units_bytes(
                    units,
                )[i] == d.subrange(4, 4 + 2 * count)[i] by {
                    let j = i / 2;
                    assert(0 <= j < count);
                    assert(units_bytes(units).subrange(2 * j, 2 * j + 2) == u16_bytes(units[j]));
                    lemma_be16_bytes(d, 4 + 2 * j);
                    if i % 2 == 0 {
                        assert(i == 2 * j);
                        assert(units_bytes(units)[i] == units_bytes(units).subrange(2 * j, 2 * j + 2)[0]);
                        assert(d[4 + i] == d.subrange(4 + 2 * j, 4 + 2 * j + 2)[0]);
                    } else {
                        assert(i == 2 * j + 1);
                        assert(units_bytes(units)[i] == units_bytes(units).subrange(2 * j, 2 * j + 2)[1]);
                        assert(d[4 + i] == d.subrange(4 + 2 * j, 4 + 2 * j + 2)[1]);
                    }
                }
            }
            lemma_be16_bytes(d, 2);
            assert(u16_bytes(0x32) =~= d.subrange(0, 2));
            assert(data_packet_bytes(DataView::Chat(c)) =~= d.take(n as int));
        }
    }
}

/// A packet read from bytes has a well-formed base packet, and re-encoding it
/// gives back exactly the bytes it was read from when it carries no data packet,
/// a join whose re-encoding has the length of what was read (the name was
/// UTF-8; a name that is not reads as the empty string), or a chat message whose
/// ASCII text has as many characters as code units were read (the units
/// decoded; undecodable text reads as the empty string).
pub proof fn law_packet_serialize_parse(s: Seq<u8>)
    requires
        s.len() <= usize::MAX,
    ensures
        spec_packet(s) matches ParseResult::Done(n, p) ==> {
            &&& base_packet_well_formed(p.base_packet)
            &&& p.data_packet is None ==> packet_bytes(p) == s.take(n as int)
            &&& p.data_packet matches Some(DataView::Init(_)) ==> (packet_bytes(p).len() == n
                ==> packet_bytes(p) == s.take(n as int))
            &&& p.data_packet matches Some(DataView::Chat(c)) ==> (is_ascii_chars(c.message)
                && packet_bytes(p).len() == n ==> packet_bytes(p) == s.take(n as int))
        },
{
    if let ParseResult::Done(n, p) = spec_packet(s) {
        law_base_packet_serialize_parse(s.skip(7));
        crate::packet::lemma_base_packet_len(s.skip(7));
        let k = match spec_base_packet(s.skip(7)) {
            ParseResult::Done(k, _) => k as int,
            _ => 0,
        };
        lemma_be32_bytes(s, 0);
        lemma_be16_bytes(s, 4);
        let header = u32_bytes(p.protocol_id) + u16_bytes(p.sender_peer_id) + seq![p.channel];
        assert(header =~= s.take(7));
        assert(base_packet_bytes(p.base_packet) =~= s.subrange(7, 7 + k));
        match p.data_packet {
            None => {
                assert(packet_bytes(p) =~= s.take(n as int));
            },
            Some(d) => {
                let rest = s.skip(7 + k);
                lemma_chat_data_serialize_parse(rest);
                lemma_init_data_serialize_parse(rest);
                let faithful = match d {
                    DataView::Init(_) => true,
                    DataView::Chat(c) => is_ascii_chars(c.message),
                };
                if faithful && packet_bytes(p).len() == n {
                    let m = (n - 7 - k) as int;
                    assert(data_packet_bytes(d) == rest.take(m));
                    assert(rest.take(m) =~= s.subrange(7 + k, n as int));
                    assert(packet_bytes(p) =~= s.take(n as int));
                }
            },
        }
    }
}


/// Code units written one after another at offset `off` read back, one
/// big-endian `u16` every two bytes, as the same units.
pub proof fn lemma_units_read_back(units: Seq<u16>, s: Seq<u8>, off: int)
    requires
        0 <= off,
        off + 2 * units.len() <= s.len(),
        s.subrange(off, off + 2 * units.len()) == units_bytes(units),
    ensures
        Seq::new(units.len(), |i: int| be16_at(s, off + 2 * i)) == units,
{
    lemma_units_bytes_layout(units);
    let read = Seq::new(units.len(), |i: int| be16_at(s, off + 2 * i));
    assert forall|i: int| 0 <= i < units.len() implies #[trigger] read[i] == units[i] by {
        assert(units_bytes(units).subrange(2 * i, 2 * i + 2) == u16_bytes(units[i]));
        assert(s.subrange(off + 2 * i, off + 2 * i + 2) =~= units_bytes(units).subrange(
            2 * i,
            2 * i + 2,
        ));
        lemma_u16_bytes(units[i], s, off + 2 * i);
    }
    assert(read =~= units);
}

/// A chat data packet that counts its UTF-16 code units reads back as its text,
/// for any text at all (not only ASCII) and whatever bytes follow it.
pub proof fn law_chat_data_reads_any_text(text: Seq<char>, rest: Seq<u8>)
    requires
        utf16_encode(text).len() < 0x10000,
    ensures
        spec_data_packet(
            u16_bytes(0x32) + u16_bytes(utf16_encode(text).len() as u16) + units_bytes(
                utf16_encode(text),
            ) + rest,
        ) == ParseResult::Done(
            (4 + 2 * utf16_encode(text).len()) as usize,
            DataView::Chat((ChatView { id: 0x32, message: text })),
        ),
{
    let units = utf16_encode(text);
    let k = units.len() as int;
    let d = u16_bytes(0x32) + u16_bytes(k as u16) + units_bytes(units) + rest;
    lemma_units_bytes_layout(units);
    assert(d.subrange(2, 4) =~= u16_bytes(k as u16));
    lemma_u16_bytes(k as u16, d, 2);
    assert(d[0] == 0 && d[1] == 0x32);
    assert(d.subrange(4, 4 + 2 * k) =~= units_bytes(units));
    lemma_units_read_back(units, d, 4);
    assert(chat_units(d, k) =~= units);
    law_utf16_decode_encode(text);
}

/// Decodable code units read as the text they decode to.
pub proof fn law_utf16_text_of_decodable_units(units: Seq<u16>)
    ensures
        utf16_decode(units) matches Some(text) ==> utf16_text_or_empty(units) == text,
{
}

/// The encoding of any string: two bytes giving its length in UTF-8 bytes (cut to
/// 16 bits), then one big-endian `u16` for each of its UTF-16 code units; read
/// back, those units decode to the string.
pub proof fn law_str_bytes_read_back(text: Seq<char>)
    ensures
        str_bytes(text).len() == 2 + 2 * utf16_encode(text).len(),
        be16_at(str_bytes(text), 0) == (encode_utf8(text).len() % 0x10000) as u16,
        utf16_decode(
            Seq::new(utf16_encode(text).len(), |i: int| be16_at(str_bytes(text), 2 + 2 * i)),
        ) == Some(text),
{
    let units = utf16_encode(text);
    let e = str_bytes(text);
    let len16 = (encode_utf8(text).len() % 0x10000) as u16;
    lemma_units_bytes_layout(units);
    assert(e.subrange(0, 2) =~= u16_bytes(len16));
    lemma_u16_bytes(len16, e, 0);
    assert(e.subrange(2, 2 + 2 * units.len() as int) =~= units_bytes(units));
    lemma_units_read_back(units, e, 2);
    law_utf16_decode_encode(text);
}

/// The encoding of a chat data packet, for any text: its id, the text's length
/// in UTF-8 bytes (cut to 16 bits), then the text's UTF-16 code units, which
/// decode back to the text.
pub proof fn law_chat_encoding_reads_back(c: ChatView)
    ensures
        data_packet_bytes(DataView::Chat(c)).len() == 4 + 2 * utf16_encode(c.message).len(),
        be16_at(data_packet_bytes(DataView::Chat(c)), 0) == c.id,
        be16_at(data_packet_bytes(DataView::Chat(c)), 2) == (encode_utf8(c.message).len()
            % 0x10000) as u16,
        utf16_decode(
            chat_units(data_packet_bytes(DataView::Chat(c)), utf16_encode(c.message).len() as int),
        ) == Some(c.message),
{
    let units = utf16_encode(c.message);
    let e = data_packet_bytes(DataView::Chat(c));
    let len16 = (encode_utf8(c.message).len() % 0x10000) as u16;
    lemma_units_bytes_layout(units);
    assert(e.subrange(0, 2) =~= u16_bytes(c.id));
    lemma_u16_bytes(c.id, e, 0);
    assert(e.subrange(2, 4) =~= u16_bytes(len16));
    lemma_u16_bytes(len16, e, 2);
    assert(e.subrange(4, 4 + 2 * units.len() as int) =~= units_bytes(units));
    lemma_units_read_back(units, e, 4);
    assert(chat_units(e, units.len() as int) =~= units);
    law_utf16_decode_encode(c.message);
}

/// A datagram is read as its header, then a well-formed base packet, then what
/// follows it: a data packet where it reads as one; where it cannot start one,
/// it is left unread and the packet carries no data packet; where it is too
/// short to tell, the datagram is incomplete.
pub proof fn law_packet_reads_header_base_then_data(
    protocol_id: u32,
    sender_peer_id: u16,
    channel: u8,
    b: BasePacket,
    rest: Seq<u8>,
)
    requires
        base_packet_well_formed(b),
        7 + base_packet_bytes(b).len() + rest.len() <= usize::MAX,
    ensures
        spec_packet(
            u32_bytes(protocol_id) + u16_bytes(sender_peer_id) + seq![channel] + base_packet_bytes(b)
                + rest,
        ) == match spec_data_packet(rest) {
            ParseResult::Done(m, d) => ParseResult::Done(
                (7 + base_packet_bytes(b).len() + m) as usize,
                (PacketView {
                    protocol_id,
                    sender_peer_id,
                    channel,
                    base_packet: b,
                    data_packet: Some(d),
                }),
            ),
            ParseResult::Error => ParseResult::Done(
                (7 + base_packet_bytes(b).len()) as usize,
                (PacketView { protocol_id, sender_peer_id, channel, base_packet: b, data_packet: None }),
            ),
            ParseResult::Incomplete => ParseResult::Incomplete,
        },
{
    let header = u32_bytes(protocol_id) + u16_bytes(sender_peer_id) + seq![channel];
    let base_enc = base_packet_bytes(b);
    let s = header + base_enc + rest;
    assert(s =~= header + (base_enc + rest));
    assert(s.subrange(0, 4) =~= u32_bytes(protocol_id));
    assert(s.subrange(4, 6) =~= u16_bytes(sender_peer_id));
    lemma_u32_bytes(protocol_id, s, 0);
    lemma_u16_bytes(sender_peer_id, s, 4);
    assert(s[6] == channel);
    assert(s.skip(7) =~= base_enc + rest);
    law_base_packet_parse_serialize(b, rest);
    let k = base_enc.len() as int;
    assert(s.skip(7 + k) =~= rest);
}

} // verus!
