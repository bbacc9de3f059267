//! Simple File Verification: CRC-32 checksums of files, kept in a plain-text
//! manifest of `<path> <checksum>` lines, and checked against the files again.
pub mod crc32;
pub mod creation;
pub mod record;
pub mod text;
pub mod validation;

pub use crc32::Crc32Digest;
pub use creation::SfvCreator;
pub use record::{ParseSfvRecordError, SfvRecord};
pub use validation::{Error, Validator};
