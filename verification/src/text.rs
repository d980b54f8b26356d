//! Character encodings used on the wire: UTF-16 as a specification, and the
//! standard library's decoders behind contracts.
use vstd::prelude::*;
use vstd::utf8::*;

verus! {

/// A UTF-16 code unit that opens a surrogate pair.
pub open spec fn is_high_surrogate(u: u16) -> bool {
    0xD800 <= u <= 0xDBFF
}

/// A UTF-16 code unit that closes a surrogate pair.
pub open spec fn is_low_surrogate(u: u16) -> bool {
    0xDC00 <= u <= 0xDFFF
}

/// A UTF-16 code unit that stands for a character on its own.
pub open spec fn is_single_unit(u: u16) -> bool {
    !(0xD800 <= u <= 0xDFFF)
}

/// The character that a surrogate pair stands for.
pub open spec fn surrogate_pair_value(hi: u16, lo: u16) -> u32 {
    (0x10000 + (hi - 0xD800) * 0x400 + (lo - 0xDC00)) as u32
}

/// UTF-16 decoding: `None` where a surrogate is not part of a well-formed pair.
pub open spec fn utf16_decode(units: Seq<u16>) -> Option<Seq<char>>
    decreases units.len(),
{
    if units.len() == 0 {
        Some(Seq::empty())
    } else if is_single_unit(units[0]) {
        match utf16_decode(units.drop_first()) {
            Some(rest) => Some(seq![units[0] as char] + rest),
            None => None,
        }
    } else if is_high_surrogate(units[0]) && units.len() >= 2 && is_low_surrogate(units[1]) {
        match utf16_decode(units.skip(2)) {
            Some(rest) => Some(seq![surrogate_pair_value(units[0], units[1]) as char] + rest),
            None => None,
        }
    } else {
        None
    }
}

/// The UTF-16 code units of one character.
pub open spec fn char_utf16(c: char) -> Seq<u16> {
    let v = c as u32;
    if v < 0x10000 {
        seq![v as u16]
    } else {
        seq![(0xD800 + (v - 0x10000) / 0x400) as u16, (0xDC00 + (v - 0x10000) % 0x400) as u16]
    }
}

/// UTF-16 encoding of a character sequence.
pub open spec fn utf16_encode(chars: Seq<char>) -> Seq<u16>
    decreases chars.len(),
{
    if chars.len() == 0 {
        Seq::empty()
    } else {
        char_utf16(chars[0]) + utf16_encode(chars.drop_first())
    }
}

/// The text a decoder leaves when it gives up: the empty string.
pub open spec fn utf16_text_or_empty(units: Seq<u16>) -> Seq<char> {
    match utf16_decode(units) {
        Some(t) => t,
        None => Seq::empty(),
    }
}

/// The text of UTF-8 bytes, or the empty string where they are not UTF-8.
pub open spec fn utf8_text_or_empty(bytes: Seq<u8>) -> Seq<char> {
    if valid_utf8(bytes) {
        decode_utf8(bytes)
    } else {
        Seq::empty()
    }
}

/// Calls `String::from_utf8`, which succeeds exactly on well-formed UTF-8 and
/// then holds the decoded characters.
#[verifier::external_body]
pub(crate) fn string_from_utf8(bytes: Vec<u8>) -> (r: Option<String>)
    ensures
        r is Some <==> valid_utf8(bytes@),
        r matches Some(s) ==> s@ == decode_utf8(bytes@),
{
    String::from_utf8(bytes).ok()
}

/// Calls `String::from_utf16`, which succeeds exactly when every surrogate is part
/// of a well-formed pair and then holds the decoded characters.
#[verifier::external_body]
pub(crate) fn string_from_utf16(units: &[u16]) -> (r: Option<String>)
    ensures
        r is Some <==> utf16_decode(units@) is Some,
        r matches Some(s) ==> utf16_decode(units@) == Some(s@),
{
    String::from_utf16(units).ok()
}

} // verus!

verus! {

/// Decoding the UTF-16 encoding of any text gives the text back.
pub proof fn law_utf16_decode_encode(text: Seq<char>)
    ensures
        utf16_decode(utf16_encode(text)) == Some(text),
    decreases text.len(),
{
    if text.len() == 0 {
        assert(utf16_encode(text) =~= Seq::<u16>::empty());
        assert(text =~= Seq::<char>::empty());
    } else {
        let c = text[0];
        let rest = text.drop_first();
        let v = c as u32;
        law_utf16_decode_encode(rest);
        vstd::utf8::char_is_scalar(c);
        let units = utf16_encode(text);
        if v < 0x10000 {
            assert(units.drop_first() =~= utf16_encode(rest));
            let x = (v as u16) as char;
            assert(x as u32 == v);
            vstd::utf8::char_u32_cast(x, x as u32);
            vstd::utf8::char_u32_cast(c, v);
            assert(x == c);
            assert(units[0] == v as u16);
            assert(is_single_unit(units[0]));
            assert(text =~= seq![c] + rest);
            assert(utf16_decode(units) == Some(text));
        } else {
            let low = v - 0x10000;
            assert(low / 0x400 < 0x400 && low % 0x400 < 0x400);
            assert(units.skip(2) =~= utf16_encode(rest));
            assert(surrogate_pair_value(units[0], units[1]) == v) by {
                assert(low == (low / 0x400) * 0x400 + low % 0x400);
            }
            let x = surrogate_pair_value(units[0], units[1]) as char;
            vstd::utf8::char_u32_cast(x, x as u32);
            vstd::utf8::char_u32_cast(c, v);
            assert(x == c);
            assert(is_high_surrogate(units[0]) && is_low_surrogate(units[1]));
            assert(text =~= seq![c] + rest);
            assert(utf16_decode(units) == Some(text));
        }
    }
}

/// Text decoded from UTF-16 encodes back to the same code units.
pub proof fn lemma_utf16_encode_decode(units: Seq<u16>)
    ensures
        utf16_decode(units) matches Some(text) ==> utf16_encode(text) == units,
    decreases units.len(),
{
    if units.len() == 0 {
    } else if is_single_unit(units[0]) {
        lemma_utf16_encode_decode(units.drop_first());
        if let Some(text) = utf16_decode(units) {
            let c = units[0] as char;
            assert(text[0] == c);
            assert(text.drop_first() =~= utf16_decode(units.drop_first())->0);
            assert((c as u32) == units[0] as u32);
            assert(units =~= seq![units[0]] + units.drop_first());
        }
    } else if is_high_surrogate(units[0]) && units.len() >= 2 && is_low_surrogate(units[1]) {
        lemma_utf16_encode_decode(units.skip(2));
        if let Some(text) = utf16_decode(units) {
            let v = surrogate_pair_value(units[0], units[1]);
            let c = v as char;
            assert(text[0] == c);
            assert(text.drop_first() =~= utf16_decode(units.skip(2))->0);
            assert(c as u32 == v);
            let low = v - 0x10000;
            assert(low == (units[0] - 0xD800) * 0x400 + (units[1] - 0xDC00));
            assert(low / 0x400 == units[0] - 0xD800 && low % 0x400 == units[1] - 0xDC00)
                by (nonlinear_arith)
                requires
                    low == (units[0] - 0xD800) * 0x400 + (units[1] - 0xDC00),
                    0 <= units[1] - 0xDC00 < 0x400,
            ;
            assert(units =~= seq![units[0], units[1]] + units.skip(2));
        }
    }
}

/// ASCII text takes one UTF-16 code unit per character, equal to the character.
pub proof fn lemma_utf16_encode_ascii(text: Seq<char>)
    requires
        vstd::utf8::is_ascii_chars(text),
    ensures
        utf16_encode(text) == Seq::new(text.len(), |i: int| text[i] as u16),
    decreases text.len(),
{
    if text.len() > 0 {
        let rest = text.drop_first();
        assert(vstd::utf8::is_ascii_chars(rest)) by {
            assert forall|i| 0 <= i < rest.len() implies '\0' <= #[trigger] rest[i] <= '\u{7f}' by {
                assert(rest[i] == text[i + 1]);
            }
        }
        lemma_utf16_encode_ascii(rest);
        assert('\0' <= text[0] <= '\u{7f}');
        assert(utf16_encode(text) =~= Seq::new(text.len(), |i: int| text[i] as u16));
    }
}

} // verus!
