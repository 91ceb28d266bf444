//! Errors of the library.
use crate::file::Eu4FileEntryName;
use vstd::prelude::*;
use vstd::string::StringExecFns;

verus! {

/// Specific type of error
#[derive(Debug)]
pub enum Eu4ErrorKind {
    /// The zip archive could not be read.
    Zip(rawzip::Error),
    /// unknown header found in zip entry. Must be EU4txt or EU4bin
    ZipHeader,
    /// unknown header found in file. Must be EU4txt, EU4bin, or a zip file.
    UnknownHeader,
    /// unrecognized zip compression method
    UnknownCompression,
    /// The data could not be parsed.
    Parse(jomini::Error),
    /// A deserializer wrapper was used in a way it does not support.
    DeserializeImpl { msg: String },
    /// The data could not be deserialized.
    Deserialize(jomini::DeserializeError),
    /// unknown binary token encountered
    UnknownToken { token_id: u16 },
    /// country tags must be 3 letters in length
    CountryTagIncorrectSize,
    /// country tags must contain only ascii letters
    CountryTagInvalidCharacters,
    /// expected the binary integer to be parsed as a date
    InvalidDate(i32),
    /// expected the file to exist within zip
    MissingFile(Eu4FileEntryName),
    /// Reading or decompressing the data failed.
    Io(std::io::Error),
    /// invalid syntax
    InvalidSyntax(String),
}

/// An EU4 Error
#[derive(Debug)]
pub struct Eu4Error(Box<Eu4ErrorKind>);

impl Eu4Error {
    pub closed spec fn spec_kind(&self) -> Eu4ErrorKind {
        *self.0
    }

    pub fn new(kind: Eu4ErrorKind) -> (e: Eu4Error)
        ensures
            e.spec_kind() == kind,
    {
        Eu4Error(Box::new(kind))
    }

    /// Return the specific type of error
    pub fn kind(&self) -> (k: &Eu4ErrorKind)
        ensures
            *k == self.spec_kind(),
    {
        &self.0
    }

    /// An error that a deserializer reports with a message.
    pub fn custom(msg: String) -> (e: Eu4Error)
        ensures
            e.spec_kind() matches Eu4ErrorKind::DeserializeImpl { msg: m } && m@ == msg@,
    {
        Eu4Error::new(Eu4ErrorKind::DeserializeImpl { msg })
    }

    /// The specific type of error, taken out of the error.
    pub fn into_kind(self) -> (k: Eu4ErrorKind)
        ensures
            k == self.spec_kind(),
    {
        *self.0
    }
}

impl From<Eu4ErrorKind> for Eu4Error {
    fn from(err: Eu4ErrorKind) -> (e: Eu4Error) {
        Eu4Error(Box::new(err))
    }
}

/// Building an error from its kind keeps the kind.
pub proof fn law_from_kind_keeps_kind(k: Eu4ErrorKind)
    ensures
        <Eu4Error as vstd::std_specs::convert::FromSpec<Eu4ErrorKind>>::from_spec(k).spec_kind()
            == k,
{
}

impl vstd::std_specs::convert::FromSpecImpl<Eu4ErrorKind> for Eu4Error {
    open spec fn obeys_from_spec() -> bool {
        true
    }

    closed spec fn from_spec(v: Eu4ErrorKind) -> Eu4Error {
        Eu4Error(Box::new(v))
    }
}

/// What a jomini error is, as far as this library tells errors apart.
pub enum JominiFailure {
    /// Deserializing met a binary token with no known name.
    UnknownToken(u32, jomini::DeserializeError),
    /// Any other deserialization error.
    Deserialize(jomini::DeserializeError),
    /// An error that is not about deserializing.
    Other,
}

/// Tells apart the kinds of a jomini error with `jomini::Error::into_kind`
/// and `jomini::DeserializeError::kind`. Nothing is claimed of the result.
#[verifier::external_body]
fn jomini_failure(e: jomini::Error) -> JominiFailure {
    match e.into_kind() {
        jomini::ErrorKind::Deserialize(x) => match x.kind() {
            jomini::DeserializeErrorKind::UnknownToken { token_id } => JominiFailure::UnknownToken(*token_id, x),
            _ => JominiFailure::Deserialize(x),
        },
        _ => JominiFailure::Other,
    }
}

/// The kind of error that a jomini error becomes: an unknown token keeps
/// its id when the id is a 16 bit token, other deserialization errors are
/// kept as they are, and anything else is unexpected.
pub fn deserialize_error_kind(f: JominiFailure) -> (k: Eu4ErrorKind)
    ensures
        match f {
            JominiFailure::UnknownToken(id, x) => if id <= 0xFFFF {
                k == Eu4ErrorKind::UnknownToken { token_id: id as u16 }
            } else {
                k == Eu4ErrorKind::Deserialize(x)
            },
            JominiFailure::Deserialize(x) => k == Eu4ErrorKind::Deserialize(x),
            JominiFailure::Other => k matches Eu4ErrorKind::DeserializeImpl { msg } && msg@
                == "unexpected error"@,
        },
{
    match f {
        JominiFailure::UnknownToken(id, x) => if id <= 0xFFFF {
            Eu4ErrorKind::UnknownToken { token_id: id as u16 }
        } else {
            Eu4ErrorKind::Deserialize(x)
        },
        JominiFailure::Deserialize(x) => Eu4ErrorKind::Deserialize(x),
        JominiFailure::Other => Eu4ErrorKind::DeserializeImpl { msg: String::from_str("unexpected error") },
    }
}

impl From<jomini::Error> for Eu4Error {
    fn from(value: jomini::Error) -> (e: Eu4Error) {
        Eu4Error::new(deserialize_error_kind(jomini_failure(value)))
    }
}

impl vstd::std_specs::convert::FromSpecImpl<jomini::Error> for Eu4Error {
    open spec fn obeys_from_spec() -> bool {
        false
    }

    open spec fn from_spec(v: jomini::Error) -> Eu4Error {
        arbitrary()
    }
}

} // verus!
