//! K-sortable unique identifiers: 160 bits, of which the first 32 are a timestamp
//! in seconds and the other 128 a random payload, with a text form of 27
//! characters of base 62 that sorts as the identifiers do.

pub mod alphabet;
pub mod bytes;
pub mod codec;
pub mod entropy;
pub mod epoch;
pub mod error;
pub mod format;
pub mod generate;
pub mod ksuid;
pub mod laws;
pub mod limits;
pub mod numerals;
pub mod order;
pub mod radix;

pub use alphabet::ALPHABET;
pub use bytes::ByteOrder;
pub use entropy::{gen_payload, RngType};
pub use epoch::{gen_epoch, timestamp_at, to_std_epoch, UnixTime};
pub use error::KsuidError;
pub use codec::deserialize;
pub use ksuid::Ksuid;
