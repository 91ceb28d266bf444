//! Comparisons of strings and byte strings.
use vstd::prelude::*;
use vstd::string::StringExecFns;

verus! {

/// `s` ends with `suffix`.
pub open spec fn seq_ends_with<T>(s: Seq<T>, suffix: Seq<T>) -> bool {
    suffix.len() <= s.len() && s.subrange(s.len() - suffix.len(), s.len() as int) == suffix
}

/// `s` starts with `prefix`.
pub open spec fn seq_starts_with<T>(s: Seq<T>, prefix: Seq<T>) -> bool {
    prefix.len() <= s.len() && s.subrange(0, prefix.len() as int) == prefix
}

/// Byte-wise equality of two slices.
pub fn bytes_eq(a: &[u8], b: &[u8]) -> (r: bool)
    ensures
        r == (a@ == b@),
{
    if a.len() != b.len() {
        return false;
    }
    let mut i: usize = 0;
    while i < a.len()
        invariant
            a@.len() == b@.len(),
            i <= a@.len(),
            forall|j: int| 0 <= j < i ==> a@[j] == b@[j],
        decreases a@.len() - i,
    {
        if a[i] != b[i] {
            return false;
        }
        i = i + 1;
    }
    assert(a@ =~= b@);
    true
}

/// Whether `data` begins with the bytes of `prefix`.
pub fn bytes_start_with(data: &[u8], prefix: &[u8]) -> (r: bool)
    ensures
        r == seq_starts_with(data@, prefix@),
{
    if data.len() < prefix.len() {
        return false;
    }
    let head = &data[0..prefix.len()];
    bytes_eq(head, prefix)
}

/// Whether `data` ends with the bytes of `suffix`.
pub fn bytes_end_with(data: &[u8], suffix: &[u8]) -> (r: bool)
    ensures
        r == seq_ends_with(data@, suffix@),
{
    if data.len() < suffix.len() {
        return false;
    }
    let tail = &data[data.len() - suffix.len()..data.len()];
    bytes_eq(tail, suffix)
}

/// Equality of two strings.
pub fn str_eq(a: &str, b: &str) -> (r: bool)
    ensures
        r == (a@ == b@),
{
    let r = bytes_eq(a.as_bytes(), b.as_bytes());
    proof {
        vstd::utf8::encode_utf8_decode_utf8(a@);
        vstd::utf8::encode_utf8_decode_utf8(b@);
    }
    r
}

/// The lowercase hex digit of `n`.
pub open spec fn hex_digit(n: int) -> char {
    if n < 10 {
        (48 + n) as char
    } else {
        (87 + n) as char
    }
}

/// A byte in two lowercase hex digits.
pub open spec fn hex_byte(b: u8) -> Seq<char> {
    seq![hex_digit((b / 16) as int), hex_digit((b % 16) as int)]
}

pub fn push_hex_byte(out: &mut String, b: u8)
    ensures
        final(out)@ == old(out)@ + hex_byte(b),
{
    let digits = "0123456789abcdef";
    proof {
        reveal_strlit("0123456789abcdef");
    }
    let hi = (b / 16) as usize;
    let lo = (b % 16) as usize;
    out.append(digits.substring_char(hi, hi + 1));
    out.append(digits.substring_char(lo, lo + 1));
    proof {
        assert(digits@.subrange(hi as int, hi + 1) =~= seq![hex_digit((b / 16) as int)]);
        assert(digits@.subrange(lo as int, lo + 1) =~= seq![hex_digit((b % 16) as int)]);
        assert(final(out)@ =~= old(out)@ + hex_byte(b));
    }
}

/// The hexadecimal digits of `x`, lowercase and without leading zeros.
pub open spec fn hex_text(x: nat) -> Seq<char>
    decreases x,
{
    if x < 16 {
        seq![hex_digit(x as int)]
    } else {
        hex_text(x / 16).push(hex_digit((x % 16) as int))
    }
}

fn push_hex_digit(out: &mut String, d: u8)
    requires
        d < 16,
    ensures
        final(out)@ == old(out)@.push(hex_digit(d as int)),
{
    let digits = "0123456789abcdef";
    proof {
        reveal_strlit("0123456789abcdef");
    }
    let i = d as usize;
    out.append(digits.substring_char(i, i + 1));
    proof {
        assert(digits@.subrange(i as int, i + 1) =~= seq![hex_digit(d as int)]);
        assert(final(out)@ =~= old(out)@.push(hex_digit(d as int)));
    }
}

/// Appends the hexadecimal digits of `x`, lowercase and without leading
/// zeros.
pub fn push_hex(out: &mut String, x: u16)
    ensures
        final(out)@ == old(out)@ + hex_text(x as nat),
    decreases x,
{
    if x < 16 {
        push_hex_digit(out, x as u8);
        proof {
            assert(old(out)@.push(hex_digit(x as int)) =~= old(out)@ + hex_text(x as nat));
        }
    } else {
        push_hex(out, x / 16);
        push_hex_digit(out, (x % 16) as u8);
        proof {
            assert((old(out)@ + hex_text((x / 16) as nat)).push(hex_digit((x % 16) as int)) =~= old(
                out,
            )@ + hex_text(x as nat));
        }
    }
}

} // verus!
