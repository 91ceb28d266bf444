//! Types of other crates that values of this library carry.
use vstd::prelude::*;

verus! {

/// An error reading a zip archive.
#[verifier::external_type_specification]
#[verifier::external_body]
pub struct ExZipError(rawzip::Error);

/// An error of jomini, the parser of the save formats.
#[verifier::external_type_specification]
#[verifier::external_body]
pub struct ExJominiError(jomini::Error);

/// A deserialization error of jomini.
#[verifier::external_type_specification]
#[verifier::external_body]
pub struct ExJominiDeserializeError(jomini::DeserializeError);

/// An I/O error, as decompression reports it.
#[verifier::external_type_specification]
#[verifier::external_body]
pub struct ExIoError(std::io::Error);

/// The tokens that jomini parses out of a text document.
#[verifier::external_type_specification]
#[verifier::external_body]
pub struct ExTextTape<'a>(jomini::TextTape<'a>);

} // verus!
