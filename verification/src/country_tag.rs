//! Country tags: the short names that identify countries.
use crate::strings::str_eq;
use vstd::prelude::*;
use vstd::string::StringExecFns;

verus! {

/// A country tag, such as `ENG`.
#[derive(Debug, Clone, Hash, PartialEq, Eq)]
pub struct CountryTag(String);

impl View for CountryTag {
    type V = Seq<char>;

    closed spec fn view(&self) -> Seq<char> {
        self.0@
    }
}

impl CountryTag {
    /// The tag with this text.
    pub fn new(x: String) -> (t: CountryTag)
        ensures
            t@ == x@,
    {
        CountryTag(x)
    }

    pub fn as_str(&self) -> (s: &str)
        ensures
            s@ == self@,
    {
        self.0.as_str()
    }

    pub fn to_string(&self) -> (s: String)
        ensures
            s@ == self@,
    {
        self.0.clone()
    }

    /// The text of the tag, taken out of it.
    pub fn into_string(self) -> (s: String)
        ensures
            s@ == self@,
    {
        self.0
    }

    /// A copy of the tag.
    pub fn duplicate(&self) -> (t: CountryTag)
        ensures
            t@ == self@,
    {
        CountryTag(self.0.clone())
    }

    /// Whether the two tags are the same.
    pub fn same_as(&self, other: &CountryTag) -> (b: bool)
        ensures
            b == (self@ == other@),
    {
        str_eq(self.0.as_str(), other.0.as_str())
    }
}

impl<'a> From<&'a str> for CountryTag {
    fn from(x: &'a str) -> (t: CountryTag) {
        CountryTag(String::from_str(x))
    }
}

impl<'a> vstd::std_specs::convert::FromSpecImpl<&'a str> for CountryTag {
    open spec fn obeys_from_spec() -> bool {
        false
    }

    open spec fn from_spec(v: &'a str) -> CountryTag {
        arbitrary()
    }
}

impl From<String> for CountryTag {
    fn from(x: String) -> (t: CountryTag) {
        CountryTag(x)
    }
}

impl vstd::std_specs::convert::FromSpecImpl<String> for CountryTag {
    open spec fn obeys_from_spec() -> bool {
        true
    }

    closed spec fn from_spec(v: String) -> CountryTag {
        CountryTag(v)
    }
}

} // verus!
