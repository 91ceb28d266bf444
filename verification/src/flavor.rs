//! Decoding the text of EU4 saves.
//!
//! Strings are Windows-1252, except that the game escapes characters that
//! Windows-1252 lacks (such as Chinese text) as an escape byte (0x10 to
//! 0x13) followed by two bytes of a UCS-2 code unit.
use crate::melt::FailedResolveStrategy;
use crate::strings::{hex_text, push_hex};
use vstd::prelude::*;
use vstd::string::StringExecFns;

verus! {

/// `…`, written for escape sequences that cannot be decoded.
pub const ELLIPSIS: u16 = 0x2026;

/// The UCS-2 code unit of a Windows-1252 byte.
pub open spec fn cp1252_ucs2(cp: u8) -> u32 {
    if cp == 0x80 {
        0x20AC
    } else if cp == 0x82 {
        0x201A
    } else if cp == 0x83 {
        0x0192
    } else if cp == 0x84 {
        0x201E
    } else if cp == 0x85 {
        0x2026
    } else if cp == 0x86 {
        0x2020
    } else if cp == 0x87 {
        0x2021
    } else if cp == 0x88 {
        0x02C6
    } else if cp == 0x89 {
        0x2030
    } else if cp == 0x8A {
        0x0160
    } else if cp == 0x8B {
        0x2039
    } else if cp == 0x8C {
        0x0152
    } else if cp == 0x8E {
        0x017D
    } else if cp == 0x91 {
        0x2018
    } else if cp == 0x92 {
        0x2019
    } else if cp == 0x93 {
        0x201C
    } else if cp == 0x94 {
        0x201D
    } else if cp == 0x95 {
        0x2022
    } else if cp == 0x96 {
        0x2013
    } else if cp == 0x97 {
        0x2014
    } else if cp == 0x98 {
        0x02DC
    } else if cp == 0x99 {
        0x2122
    } else if cp == 0x9A {
        0x0161
    } else if cp == 0x9B {
        0x203A
    } else if cp == 0x9C {
        0x0153
    } else if cp == 0x9E {
        0x017E
    } else if cp == 0x9F {
        0x0178
    } else {
        cp as u32
    }
}

/// Whether a byte starts an escape sequence.
pub open spec fn is_escape(cp: u8) -> bool {
    0x10 <= cp <= 0x13
}

/// The code unit of the escape sequence `cp low high`: the little endian
/// value of the two bytes, shifted according to the escape byte, or the
/// ellipsis when the shift leaves 16 bits.
pub open spec fn escape_unit(cp: u8, low: u8, high: u8) -> u16 {
    let sp = high * 256 + low;
    let adjusted = if cp == 0x11 {
        if sp >= 0xE {
            sp - 0xE
        } else {
            0
        }
    } else if cp == 0x12 {
        sp + 0x900
    } else if cp == 0x13 {
        sp + 0x8F2
    } else {
        sp
    };
    if adjusted > 0xFFFF {
        ELLIPSIS
    } else {
        adjusted as u16
    }
}

/// The UCS-2 code units of escaped EU4 text. An escape byte without two
/// bytes after it stands for an ellipsis, and the bytes after it are read
/// on their own.
pub open spec fn escaped_units(s: Seq<u8>) -> Seq<u16>
    decreases s.len(),
{
    if s.len() == 0 {
        seq![]
    } else {
        let cp = s[0];
        if is_escape(cp) {
            if s.len() < 3 {
                seq![ELLIPSIS] + escaped_units(s.skip(1))
            } else {
                seq![escape_unit(cp, s[1], s[2])] + escaped_units(s.skip(3))
            }
        } else {
            seq![cp1252_ucs2(cp) as u16] + escaped_units(s.skip(1))
        }
    }
}

/// An escape sequence `cp low high` followed by anything decodes to one
/// code unit and then the rest on its own. The unit is the little endian
/// value `high * 256 + low`: as it is after 0x10, less 0xE (down to zero)
/// after 0x11, plus 0x900 after 0x12 and plus 0x8F2 after 0x13; a value
/// that leaves 16 bits becomes the ellipsis.
pub proof fn law_escape_sequences_shift(cp: u8, low: u8, high: u8, rest: Seq<u8>)
    requires
        0x10 <= cp <= 0x13,
    ensures
        ({
            let v = high * 256 + low;
            let shifted = if cp == 0x10 {
                v
            } else if cp == 0x11 {
                if v < 0xE {
                    0
                } else {
                    v - 0xE
                }
            } else if cp == 0x12 {
                v + 0x900
            } else {
                v + 0x8F2
            };
            escaped_units(seq![cp, low, high] + rest) == seq![
                if shifted <= 0xFFFF {
                    shifted as u16
                } else {
                    0x2026u16
                },
            ] + escaped_units(rest)
        }),
{
    let s = seq![cp, low, high] + rest;
    assert(s[0] == cp && s[1] == low && s[2] == high);
    assert(s.skip(3) =~= rest);
}

/// Converts a CP1252 byte to its UCS-2 equivalent
pub fn cp1252_to_ucs2(cp: u8) -> (u: u32)
    ensures
        u == cp1252_ucs2(cp),
        u <= 0xFFFF,
{
    match cp {
        0x80 => 0x20AC,
        0x82 => 0x201A,
        0x83 => 0x0192,
        0x84 => 0x201E,
        0x85 => 0x2026,
        0x86 => 0x2020,
        0x87 => 0x2021,
        0x88 => 0x02C6,
        0x89 => 0x2030,
        0x8A => 0x0160,
        0x8B => 0x2039,
        0x8C => 0x0152,
        0x8E => 0x017D,
        0x91 => 0x2018,
        0x92 => 0x2019,
        0x93 => 0x201C,
        0x94 => 0x201D,
        0x95 => 0x2022,
        0x96 => 0x2013,
        0x97 => 0x2014,
        0x98 => 0x02DC,
        0x99 => 0x2122,
        0x9A => 0x0161,
        0x9B => 0x203A,
        0x9C => 0x0153,
        0x9E => 0x017E,
        0x9F => 0x0178,
        _ => cp as u32,
    }
}

proof fn lemma_escaped_units_skip(s: Seq<u8>, i: int)
    requires
        0 <= i < s.len(),
    ensures
        escaped_units(s.skip(i)) == (if is_escape(s[i]) {
            if s.len() - i < 3 {
                seq![ELLIPSIS] + escaped_units(s.skip(i + 1))
            } else {
                seq![escape_unit(s[i], s[i + 1], s[i + 2])] + escaped_units(s.skip(i + 3))
            }
        } else {
            seq![cp1252_ucs2(s[i]) as u16] + escaped_units(s.skip(i + 1))
        }),
{
    let t = s.skip(i);
    assert(t[0] == s[i]);
    assert(t.skip(1) =~= s.skip(i + 1));
    if t.len() >= 3 {
        assert(t[1] == s[i + 1]);
        assert(t[2] == s[i + 2]);
        assert(t.skip(3) =~= s.skip(i + 3));
    }
}

/// The UCS-2 code units of escaped EU4 text.
pub fn escaped_wide_chars(input: &[u8]) -> (units: Vec<u16>)
    ensures
        units@ == escaped_units(input@),
{
    let mut units: Vec<u16> = Vec::new();
    let mut i: usize = 0;
    proof {
        assert(input@.skip(0) =~= input@);
    }
    while i < input.len()
        invariant
            i <= input@.len(),
            units@ + escaped_units(input@.skip(i as int)) == escaped_units(input@),
        decreases input@.len() - i,
    {
        let cp = input[i];
        proof {
            lemma_escaped_units_skip(input@, i as int);
        }
        if 0x10 <= cp && cp <= 0x13 {
            if input.len() - i < 3 {
                units.push(ELLIPSIS);
                i = i + 1;
            } else {
                let low = input[i + 1] as u32;
                let high = input[i + 2] as u32;
                let sp = high * 256 + low;
                let adjusted = if cp == 0x11 {
                    if sp >= 0xE {
                        sp - 0xE
                    } else {
                        0
                    }
                } else if cp == 0x12 {
                    sp + 0x900
                } else if cp == 0x13 {
                    sp + 0x8F2
                } else {
                    sp
                };
                let unit = if adjusted > 0xFFFF {
                    ELLIPSIS
                } else {
                    adjusted as u16
                };
                units.push(unit);
                i = i + 3;
            }
        } else {
            let u = cp1252_to_ucs2(cp);
            units.push(u as u16);
            i = i + 1;
        }
        proof {
            assert(units@ + escaped_units(input@.skip(i as int)) =~= escaped_units(input@));
        }
    }
    proof {
        assert(input@.skip(i as int) =~= Seq::<u8>::empty());
        assert(units@ =~= escaped_units(input@));
    }
    units
}

/// The text that `String::from_utf16_lossy` makes of these UTF-16 units.
pub uninterp spec fn utf16_lossy(units: Seq<u16>) -> Seq<char>;

/// No unit is half of a surrogate pair.
pub open spec fn no_surrogates(units: Seq<u16>) -> bool {
    forall|i: int| 0 <= i < units.len() ==> !(0xD800 <= #[trigger] units[i] <= 0xDFFF)
}

/// Calls `String::from_utf16_lossy`. Its result is named `utf16_lossy` of
/// the units; when no unit is a surrogate the units are valid UTF-16 and,
/// as std documents, each unit is the one character it encodes.
#[verifier::external_body]
fn string_from_utf16_lossy(units: &[u16]) -> (s: String)
    ensures
        s@ == utf16_lossy(units@),
        no_surrogates(units@) ==> s@ == units@.map_values(|u: u16| u as char),
{
    String::from_utf16_lossy(units)
}

/// Converts the EU4 chinese encoding into a utf-8 string
///
/// The encoding is: escaped text, to wide chars (UCS-2), to UTF-8.
pub fn decode_eu4_escaped_text(input: &[u8]) -> (s: String)
    ensures
        s@ == utf16_lossy(escaped_units(input@)),
        no_surrogates(escaped_units(input@)) ==> s@ == escaped_units(input@).map_values(
            |u: u16| u as char,
        ),
{
    let units = escaped_wide_chars(input);
    string_from_utf16_lossy(units.as_slice())
}

/// Whether a byte is ASCII whitespace as `u8::is_ascii_whitespace` has it:
/// space, tab, line feed, form feed or carriage return.
pub open spec fn is_ascii_blank(b: u8) -> bool {
    b == 0x20 || b == 0x09 || b == 0x0A || b == 0x0C || b == 0x0D
}

/// The bytes without the ASCII whitespace they end with.
pub open spec fn trim_ascii_end(s: Seq<u8>) -> Seq<u8>
    decreases s.len(),
{
    if s.len() > 0 && is_ascii_blank(s.last()) {
        trim_ascii_end(s.drop_last())
    } else {
        s
    }
}

/// The text that jomini's Windows-1252 decoding makes of these bytes: the
/// trailing ASCII whitespace is trimmed, backslashes are dropped, and every
/// other byte becomes its Windows-1252 character (the five bytes that
/// Windows-1252 leaves undefined stand for themselves).
pub open spec fn windows1252_text(data: Seq<u8>) -> Seq<char> {
    trim_ascii_end(data).filter(|b: u8| b != 0x5Cu8).map_values(|b: u8| cp1252_ucs2(b) as char)
}

/// Calls `jomini::Windows1252Encoding::decode`, which trims the trailing
/// ASCII whitespace, drops backslashes and maps each other byte through its
/// Windows-1252 table, as `windows1252_text` states.
#[verifier::external_body]
fn windows1252_decode(data: &[u8]) -> (s: String)
    ensures
        s@ == windows1252_text(data@),
{
    jomini::Windows1252Encoding::decode(data).into_owned()
}

/// The text of an EU4 string scalar: escaped text when it starts with an
/// escape byte, Windows-1252 otherwise.
pub open spec fn scalar_text(data: Seq<u8>) -> Seq<char> {
    if data.len() > 0 && is_escape(data[0]) {
        utf16_lossy(escaped_units(data))
    } else {
        windows1252_text(data)
    }
}

/// Decodes an EU4 string scalar.
pub fn eu4_scalar(data: &[u8]) -> (s: String)
    ensures
        s@ == scalar_text(data@),
{
    if data.len() > 0 && 0x10 <= data[0] && data[0] <= 0x13 {
        decode_eu4_escaped_text(data)
    } else {
        windows1252_decode(data)
    }
}

/// The eu4 binary flavor
#[derive(Debug, Default)]
pub struct Eu4Flavor;

impl Eu4Flavor {
    /// Creates a new eu4 flavor
    pub fn new() -> (f: Eu4Flavor)
        ensures
            f == Eu4Flavor,
    {
        Eu4Flavor
    }

    /// Decodes a string of the save as Windows-1252. Bytes that start an
    /// escape sequence are kept as they are: a name such as the bytes
    /// `10 28 84 10 62 53 10 50 4f` reads `\u{10}(\u{201e}\u{10}bS\u{10}PO`.
    /// `eu4_scalar` is the reading with the escape heuristic.
    pub fn decode(&self, data: &[u8]) -> (s: String)
        ensures
            s@ == windows1252_text(data@),
    {
        windows1252_decode(data)
    }
}

/// Text without escape bytes is read one unit per byte, and bytes of the
/// printable ASCII range stand for themselves.
pub proof fn law_unescaped_bytes_one_unit_each(s: Seq<u8>)
    requires
        forall|i: int| 0 <= i < s.len() ==> !is_escape(#[trigger] s[i]),
    ensures
        escaped_units(s).len() == s.len(),
        forall|i: int|
            0 <= i < s.len() && 0x20 <= s[i] < 0x7F ==> #[trigger] escaped_units(s)[i] == s[i] as u16,
    decreases s.len(),
{
    if s.len() > 0 {
        let t = s.skip(1);
        assert forall|i: int| 0 <= i < t.len() implies !is_escape(#[trigger] t[i]) by {
            assert(t[i] == s[i + 1]);
        }
        law_unescaped_bytes_one_unit_each(t);
        assert forall|i: int|
            0 <= i < s.len() && 0x20 <= s[i] < 0x7F implies #[trigger] escaped_units(s)[i]
            == s[i] as u16 by {
            if i > 0 {
                assert(t[i - 1] == s[i]);
            }
        }
    }
}

/// Each escape sequence yields exactly one unit: an input made of complete
/// escape sequences yields one unit per three bytes.
pub proof fn law_escape_sequences_one_unit_each(s: Seq<u8>)
    requires
        s.len() % 3 == 0,
        forall|i: int| 0 <= i < s.len() && i % 3 == 0 ==> is_escape(#[trigger] s[i]),
    ensures
        escaped_units(s).len() == s.len() / 3,
    decreases s.len(),
{
    if s.len() > 0 {
        let t = s.skip(3);
        assert forall|i: int| 0 <= i < t.len() && i % 3 == 0 implies is_escape(#[trigger] t[i]) by {
            assert(t[i] == s[i + 3]);
            assert((i + 3) % 3 == 0);
        }
        law_escape_sequences_one_unit_each(t);
    }
}

/// The name given to a field token: its resolved name, or for a token
/// without a name what the strategy says: an error, the token in
/// hexadecimal, or a name that the deserializer ignores.
pub fn resolve_name(field: u16, resolved: Option<&str>, strategy: FailedResolveStrategy) -> (r: Result<String, String>)
    ensures
        match resolved {
            Some(n) => r matches Ok(s) && s@ == n@,
            None => match strategy {
                FailedResolveStrategy::Error => r matches Err(m) && m@ == "unknown field token 0x"@
                    + hex_text(field as nat),
                FailedResolveStrategy::Stringify => r matches Ok(s) && s@ == "0x"@ + hex_text(
                    field as nat,
                ),
                FailedResolveStrategy::Ignore => r matches Ok(s) && s@
                    == "__internal_identifier_ignore"@,
            },
        },
{
    match resolved {
        Some(n) => Ok(String::from_str(n)),
        None => match strategy {
            FailedResolveStrategy::Error => {
                let mut m = String::from_str("unknown field token 0x");
                push_hex(&mut m, field);
                Err(m)
            },
            FailedResolveStrategy::Stringify => {
                let mut s = String::from_str("0x");
                push_hex(&mut s, field);
                Ok(s)
            },
            FailedResolveStrategy::Ignore => Ok(String::from_str("__internal_identifier_ignore")),
        },
    }
}

} // verus!
