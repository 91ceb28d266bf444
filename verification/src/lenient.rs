//! Values that saves write loosely: bytes written as wider numbers that
//! wrap around, and empty texts that mean nothing is there.
use vstd::prelude::*;

verus! {

/// The numbers of a list kept as bytes: each wraps around to its lowest
/// eight bits, as the game itself does with colour components above 255.
pub fn overflow_bytes(values: &[u16]) -> (r: Vec<u8>)
    ensures
        r@.len() == values@.len(),
        forall|i: int| 0 <= i < values@.len() ==> #[trigger] r@[i] == values@[i] as u8,
{
    let mut out: Vec<u8> = Vec::new();
    let mut k: usize = 0;
    while k < values.len()
        invariant
            k <= values@.len(),
            out@.len() == k,
            forall|i: int| 0 <= i < k ==> #[trigger] out@[i] == values@[i] as u8,
        decreases values@.len() - k,
    {
        out.push(values[k] as u8);
        k = k + 1;
    }
    out
}

/// The first three numbers of a list as bytes, each wrapped around to its
/// lowest eight bits; missing numbers count as zero. `values` holds the
/// numbers read before the rest of the list is skipped, so at most three.
pub fn overflow_byte_triple(values: &[u16]) -> (r: [u8; 3])
    ensures
        forall|i: int|
            0 <= i < 3 ==> #[trigger] r@[i] == if i < values@.len() {
                values@[i] as u8
            } else {
                0u8
            },
{
    let mut result: [u8; 3] = [0u8, 0u8, 0u8];
    let mut k: usize = 0;
    while k < 3 && k < values.len()
        invariant
            k <= 3,
            k <= values@.len(),
            forall|i: int|
                0 <= i < 3 ==> #[trigger] result@[i] == if i < k {
                    values@[i] as u8
                } else {
                    0u8
                },
        decreases 3 - k,
    {
        result.set(k, values[k] as u8);
        k = k + 1;
    }
    result
}

/// An empty text means that nothing is there.
pub fn empty_string_is_none(s: String) -> (r: Option<String>)
    ensures
        r is None <==> s@.len() == 0,
        r matches Some(x) ==> x@ == s@,
{
    if s.as_str().is_empty() {
        None
    } else {
        Some(s)
    }
}

} // verus!
