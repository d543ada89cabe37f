//! UTF-16: the encoding and decoding as spec functions, and std's
//! conversions behind contracts stated over them.

use vstd::prelude::*;

verus! {

/// A high (leading) surrogate code unit.
pub open spec fn is_high_surrogate(u: u16) -> bool {
    0xD800 <= u <= 0xDBFF
}

/// A low (trailing) surrogate code unit.
pub open spec fn is_low_surrogate(u: u16) -> bool {
    0xDC00 <= u <= 0xDFFF
}

/// The code units of one character: the character itself below 0x10000,
/// else a surrogate pair carrying its offset from 0x10000, ten bits each.
pub open spec fn char_utf16(c: char) -> Seq<u16> {
    let v = c as int;
    if v < 0x10000 {
        seq![v as u16]
    } else {
        seq![(0xD800 + (v - 0x10000) / 0x400) as u16, (0xDC00 + (v - 0x10000) % 0x400) as u16]
    }
}

/// The UTF-16 encoding of the characters `s`: the code units of each, in order.
pub open spec fn utf16_encoding(s: Seq<char>) -> Seq<u16>
    decreases s.len(),
{
    if s.len() == 0 {
        Seq::empty()
    } else {
        char_utf16(s[0]) + utf16_encoding(s.skip(1))
    }
}

/// The UTF-16 decoding of `units`: a high surrogate followed by a low one
/// gives the character they carry, any other surrogate makes the units
/// invalid (`None`), and every other unit is a character of its own.
pub open spec fn utf16_decoding(units: Seq<u16>) -> Option<Seq<char>>
    decreases units.len(),
{
    if units.len() == 0 {
        Some(Seq::empty())
    } else if units.len() >= 2 && is_high_surrogate(units[0]) && is_low_surrogate(units[1]) {
        let c = (0x10000 + (units[0] - 0xD800) * 0x400 + (units[1] - 0xDC00)) as char;
        match utf16_decoding(units.skip(2)) {
            Some(rest) => Some(seq![c] + rest),
            None => None,
        }
    } else if 0xD800 <= units[0] <= 0xDFFF {
        None
    } else {
        match utf16_decoding(units.skip(1)) {
            Some(rest) => Some(seq![units[0] as char] + rest),
            None => None,
        }
    }
}

/// Calls `str::encode_utf16` and collects the code units. The contract
/// claims that they are the UTF-16 encoding of the characters of `s`, as
/// the documentation of `encode_utf16` states.
#[verifier::external_body]
pub(crate) fn encode_utf16(s: &str) -> (units: Vec<u16>)
    ensures
        units@ == utf16_encoding(s@),
{
    s.encode_utf16().collect()
}

/// Calls `String::from_utf16`. The contract claims that it gives the
/// decoded characters where the units are valid UTF-16 and reports invalid
/// data (here `None`) where they hold an unpaired surrogate.
#[verifier::external_body]
pub(crate) fn decode_utf16(units: &[u16]) -> (s: Option<String>)
    ensures
        match s {
            Some(s) => utf16_decoding(units@) == Some(s@),
            None => utf16_decoding(units@) is None,
        },
{
    String::from_utf16(units).ok()
}

/// Law: decoding the UTF-16 encoding of any characters gives them back.
pub proof fn lemma_utf16_roundtrip(s: Seq<char>)
    ensures
        utf16_decoding(utf16_encoding(s)) == Some(s),
    decreases s.len(),
{
    if s.len() > 0 {
        let c = s[0];
        let rest = s.skip(1);
        lemma_utf16_roundtrip(rest);
        let u = utf16_encoding(s);
        let head = char_utf16(c);
        assert(u == head + utf16_encoding(rest));
        let v = c as int;
        vstd::utf8::char_is_scalar(c);
        vstd::utf8::char_u32_cast(c, c as u32);
        if v < 0x10000 {
            assert(u.skip(1) =~= utf16_encoding(rest));
            assert(u[0] as int == c as u32);
            assert((u[0] as char) == c);
        } else {
            let hi = (0xD800 + (v - 0x10000) / 0x400) as u16;
            let lo = (0xDC00 + (v - 0x10000) % 0x400) as u16;
            assert(u.skip(2) =~= utf16_encoding(rest));
            assert(u[0] == hi && u[1] == lo);
            assert(0x10000 + (hi - 0xD800) * 0x400 + (lo - 0xDC00) == v) by (nonlinear_arith)
                requires
                    0x10000 <= v <= 0x10FFFF,
                    hi == 0xD800 + (v - 0x10000) / 0x400,
                    lo == 0xDC00 + (v - 0x10000) % 0x400,
            ;
        }
        assert(seq![c] + rest =~= s);
    }
}

} // verus!
