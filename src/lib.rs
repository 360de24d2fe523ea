//! A codec for length-prefixed, type-tagged, checksummed binary records
//! laid out like PNG chunks: `length | type | data | crc`.

pub mod checksum;
pub mod chunk;
pub mod chunk_type;
pub mod endian;

mod encoding;
