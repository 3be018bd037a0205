//! The keyed primitives: HKDF-SHA256 key derivation, the FF1 cipher over
//! AES-256 in radix 2, HMAC-SHA256, and the UUID type.
use aes::Aes256;
use fpe::ff1::{BinaryNumeralString, FF1};
use hkdf::Hkdf;
use hmac::{Hmac, Mac};
use sha2::Sha256;
use vstd::prelude::*;

verus! {

/// The 32 bytes that HKDF-SHA256 expands with the label `info` from the key
/// it extracts out of `ikm` with the default all-zero salt.
pub uninterp spec fn hkdf_sha256(ikm: Seq<u8>, info: Seq<char>) -> Seq<u8>;

/// FF1 encryption (AES-256, radix 2, empty tweak) of little-endian bits.
pub uninterp spec fn ff1_encrypt(key: Seq<u8>, pt: Seq<u8>) -> Seq<u8>;

/// FF1 decryption (AES-256, radix 2, empty tweak) of little-endian bits.
pub uninterp spec fn ff1_decrypt(key: Seq<u8>, ct: Seq<u8>) -> Seq<u8>;

/// The 32-byte HMAC-SHA256 of `data` under `key`.
pub uninterp spec fn hmac_sha256(key: Seq<u8>, data: Seq<u8>) -> Seq<u8>;

/// The UUID whose 128-bit value, read little-endian, is `n`.
pub uninterp spec fn uuid_from_le(n: u128) -> uuid::Uuid;

/// The fewest bytes FF1 in radix 2 takes: it refuses inputs under 20 bits.
pub const MIN_CIPHER_BYTES: usize = 3;

#[verifier::external_type_specification]
#[verifier::external_body]
pub struct ExUuid(uuid::Uuid);

/// Relies on `Hkdf::<Sha256>::new(None, ikm)`, which extracts with the
/// all-zero default salt, and `Hkdf::expand`, which fails only for outputs
/// over 255 * 32 bytes.
#[verifier::external_body]
pub(crate) fn derive_key(ikm: &[u8], info: &str) -> (r: Vec<u8>)
    ensures
        r@ == hkdf_sha256(ikm@, info@),
        r@.len() == 32,
{
    let mut okm = [0u8; 32];
    Hkdf::<Sha256>::new(None, ikm)
        .expand(info.as_bytes(), &mut okm)
        .expect("32 bytes is a valid HKDF-SHA256 output length");
    okm.to_vec()
}

/// Relies on `FF1::<Aes256>::new(key, 2)` and `FF1::encrypt` on a
/// `BinaryNumeralString`: it refuses fewer than 20 bits, keeps the length,
/// and `FF1::decrypt` undoes it.
#[verifier::external_body]
pub(crate) fn ff1_encrypt_bytes(key: &[u8], pt: &[u8]) -> (r: Option<Vec<u8>>)
    requires
        key@.len() == 32,
        pt@.len() <= 16,
    ensures
        r is Some <==> pt@.len() >= MIN_CIPHER_BYTES,
        r is Some ==> r->Some_0@ == ff1_encrypt(key@, pt@),
        r is Some ==> r->Some_0@.len() == pt@.len(),
        r is Some ==> ff1_decrypt(key@, r->Some_0@) == pt@,
{
    let ff1 = FF1::<Aes256>::new(key, 2).ok()?;
    ff1.encrypt(&[], &BinaryNumeralString::from_bytes_le(pt)).ok().map(|ns| ns.to_bytes_le())
}

/// Relies on `FF1::<Aes256>::new(key, 2)` and `FF1::decrypt` on a
/// `BinaryNumeralString`: it refuses fewer than 20 bits and keeps the length.
#[verifier::external_body]
pub(crate) fn ff1_decrypt_bytes(key: &[u8], ct: &[u8]) -> (r: Option<Vec<u8>>)
    requires
        key@.len() == 32,
        ct@.len() <= 16,
    ensures
        r is Some <==> ct@.len() >= MIN_CIPHER_BYTES,
        r is Some ==> r->Some_0@ == ff1_decrypt(key@, ct@),
        r is Some ==> r->Some_0@.len() == ct@.len(),
{
    let ff1 = FF1::<Aes256>::new(key, 2).ok()?;
    ff1.decrypt(&[], &BinaryNumeralString::from_bytes_le(ct)).ok().map(|ns| ns.to_bytes_le())
}

/// Relies on `Hmac::<Sha256>`: `new_from_slice` takes a key of any length,
/// and `finalize` gives 32 bytes.
#[verifier::external_body]
pub(crate) fn mac_bytes(key: &[u8], data: &[u8]) -> (r: Vec<u8>)
    ensures
        r@ == hmac_sha256(key@, data@),
        r@.len() == 32,
{
    let mut mac = <Hmac<Sha256> as Mac>::new_from_slice(key).expect("HMAC takes keys of any length");
    mac.update(data);
    mac.finalize().into_bytes().to_vec()
}

/// Relies on `uuid::Uuid::from_u128_le`, which is `from_bytes` of the
/// value's little-endian bytes, so no other value gives the same UUID.
#[verifier::external_body]
pub(crate) fn uuid_from_u128_le(n: u128) -> (r: uuid::Uuid)
    ensures
        r == uuid_from_le(n),
        forall|m: u128| #[trigger] uuid_from_le(m) == r ==> m == n,
{
    uuid::Uuid::from_u128_le(n)
}

} // verus!
