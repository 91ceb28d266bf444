use vstd::prelude::*;

verus! {

/// Describes the format of the save before decoding
#[derive(Debug, Clone, Copy, PartialEq, Eq, Structural)]
pub enum Encoding {
    /// Plaintext
    Text,
    /// Plaintext documents within a zip file
    TextZip,
    /// Binary documents within a zip file
    BinaryZip,
    /// Binary
    Binary,
}

/// The short name of each encoding.
pub open spec fn encoding_name(e: Encoding) -> Seq<char> {
    match e {
        Encoding::Text => seq!['t', 'e', 'x', 't'],
        Encoding::TextZip => seq!['t', 'e', 'x', 't', 'z', 'i', 'p'],
        Encoding::BinaryZip => seq!['b', 'i', 'n', 'z', 'i', 'p'],
        Encoding::Binary => seq!['b', 'i', 'n', 'a', 'r', 'y'],
    }
}

impl Encoding {
    pub open spec fn spec_is_binary(self) -> bool {
        self is BinaryZip || self is Binary
    }

    pub open spec fn spec_is_text(self) -> bool {
        self is TextZip || self is Text
    }

    pub open spec fn spec_is_zip(self) -> bool {
        self is BinaryZip || self is TextZip
    }

    pub fn as_str(&self) -> (s: &'static str)
        ensures
            s@ == encoding_name(*self),
    {
        proof {
            reveal_strlit("text");
            reveal_strlit("textzip");
            reveal_strlit("binzip");
            reveal_strlit("binary");
        }
        match self {
            Encoding::Text => "text",
            Encoding::TextZip => "textzip",
            Encoding::BinaryZip => "binzip",
            Encoding::Binary => "binary",
        }
    }

    pub fn is_binary(&self) -> (b: bool)
        ensures
            b == self.spec_is_binary(),
    {
        matches!(self, Encoding::BinaryZip | Encoding::Binary)
    }

    pub fn is_text(&self) -> (b: bool)
        ensures
            b == self.spec_is_text(),
    {
        matches!(self, Encoding::TextZip | Encoding::Text)
    }

    pub fn is_zip(&self) -> (b: bool)
        ensures
            b == self.spec_is_zip(),
    {
        matches!(self, Encoding::BinaryZip | Encoding::TextZip)
    }
}

/// Every encoding is either binary or text, never both.
pub proof fn law_binary_xor_text(e: Encoding)
    ensures
        e.spec_is_binary() != e.spec_is_text(),
{
}

/// Distinct encodings have distinct names, so the name identifies the encoding.
pub proof fn law_encoding_name_injective(a: Encoding, b: Encoding)
    requires
        encoding_name(a) == encoding_name(b),
    ensures
        a == b,
{
    let na = encoding_name(a);
    let nb = encoding_name(b);
    assert(na.len() == nb.len());
    assert(na[3] == nb[3]);
}

} // verus!
