//! Reading and converting Europa Universalis IV save files.
//!
//! The library recognises the save encodings (plain text, binary, and zip
//! archives of either), lexes the binary token stream, decides how a binary
//! save is rendered as text, and answers questions about the parsed data.

pub mod binary;
pub mod buildings;
pub mod country_tag;
pub mod date;
pub mod deflate;
pub mod dlc;
pub mod encoding;
pub mod errors;
pub mod file;
pub mod filter;
pub mod flavor;
pub mod history;
pub mod keys;
pub mod ledgers;
pub mod lenient;
pub mod foreign;
pub mod melt;
pub mod melt_plan;
/// Repository of raw structs extracted from a save file
pub mod models;
pub mod province_id;
/// Ergonomic module for querying info from a save file
pub mod query;
pub mod strings;
pub mod tag_resolver;
pub mod tokens;
pub mod zip;

pub use country_tag::CountryTag;
pub use date::{eu4_start_date, Eu4Date};
pub use dlc::dlc_id;
pub use encoding::Encoding;
pub use errors::{Eu4Error, Eu4ErrorKind};
pub use file::{Eu4File, Eu4FileEntryName, Eu4SliceFile};
pub use melt::{FailedResolveStrategy, MeltOptions, MeltedDocument};
pub use province_id::ProvinceId;
pub use tag_resolver::TagResolver;
pub use tokens::EnvTokens;
