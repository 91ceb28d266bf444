//! Province identifiers.
use vstd::prelude::*;

verus! {

/// A province identifier. Identifiers are never negative.
#[derive(Debug, Clone, Copy, Hash, PartialEq, Eq, Structural)]
pub struct ProvinceId(i32);

impl View for ProvinceId {
    type V = int;

    closed spec fn view(&self) -> int {
        self.0 as int
    }
}

/// The magnitude of an integer.
pub open spec fn magnitude(x: int) -> int {
    if x < 0 {
        -x
    } else {
        x
    }
}

impl ProvinceId {
    /// The identifier of `x`, with the sign dropped.
    pub fn new(x: i32) -> (p: ProvinceId)
        requires
            x > i32::MIN,
        ensures
            p@ == magnitude(x as int),
    {
        if x < 0 {
            ProvinceId(-x)
        } else {
            ProvinceId(x)
        }
    }

    /// The identifier as an integer.
    pub fn as_i32(&self) -> (v: i32)
        ensures
            v == self@,
    {
        self.0
    }
}

impl Default for ProvinceId {
    fn default() -> (p: ProvinceId)
        ensures
            p@ == 0,
    {
        ProvinceId(0)
    }
}

/// An identifier does not depend on the sign it is given with, is never
/// negative, and making an identifier of an identifier keeps it.
pub proof fn law_province_id_sign(x: int)
    ensures
        magnitude(x) == magnitude(-x),
        magnitude(x) >= 0,
        magnitude(magnitude(x)) == magnitude(x),
{
}

} // verus!
