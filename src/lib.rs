//! Reversible, integrity-protected text tokens for 64-bit identifiers.
//!
//! A `Codec` turns a `u64` into `"<name>_<base62>"` and back: the number is
//! written little-endian, encrypted with FF1 (AES-256, radix 2), tagged with a
//! truncated HMAC-SHA256, packed into 16 bytes behind a sentinel byte, and
//! rendered in base62.
mod bytes;
mod codec;
mod config;
mod field;
mod laws;
mod primitives;
mod text;

pub use bytes::{last_nonzero, le_vec_to_num, num_to_le_vec};
pub use codec::{pack_payload, tags_match, Codec, Error, ErrorModel, SENTINEL};
pub use config::{Config, ConfigError};
pub use field::{Field, TypeMarker};
pub use laws::{lemma_deterministic, lemma_prefix_isolation, lemma_round_trip, lemma_uuid_distinct};
pub use text::{decode_b62, encode_b62};
