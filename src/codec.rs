//! The codec: numbers to tokens and back.
use crate::bytes::{
    byte_len, last_nonzero, last_nonzero_index, lemma_last_nonzero_bounds, le_bytes, le_bytes_of, le_to_u128, le_value,
    le_vec_to_num, num_to_le_vec,
};
use crate::config::{Config, ConfigError};
use crate::primitives::{
    derive_key, ff1_decrypt, ff1_decrypt_bytes, ff1_encrypt, ff1_encrypt_bytes, hkdf_sha256,
    hmac_sha256, mac_bytes, uuid_from_le, uuid_from_u128_le, MIN_CIPHER_BYTES,
};
use crate::text::{
    b62_accepts, b62_text, b62_value, chars_of, decode_b62, encode_b62, last_underscore,
    received_prefix,
};
use vstd::prelude::*;
use vstd::string::{StrSliceExecFns, StringExecFns};

verus! {

/// The byte that follows a payload shorter than the packed buffer.
pub const SENTINEL: u8 = 1;

/// The packed buffer holds sixteen bytes, the width of a `u128`.
pub const MAX_BUFFER: usize = 16;

/// Tag and padding lengths used for UUIDs: they fill the packed buffer.
pub const UUID_SETTING: usize = 8;

/// Why a token could not be decoded.
#[derive(Debug, PartialEq, Eq)]
pub enum Error {
    DecodingFailed,
    DecryptionFailed,
    EncryptionFailed,
    IncorrectMAC,
    InvalidDataLength,
    InvalidPrefix { received: String, expected: String },
    SentinelMismatch { received: u8, expected: u8 },
}

/// An `Error` with its text as characters.
pub enum ErrorModel {
    DecodingFailed,
    DecryptionFailed,
    EncryptionFailed,
    IncorrectMAC,
    InvalidDataLength,
    InvalidPrefix { received: Seq<char>, expected: Seq<char> },
    SentinelMismatch { received: u8, expected: u8 },
}

impl View for Error {
    type V = ErrorModel;

    open spec fn view(&self) -> ErrorModel {
        match self {
            Error::DecodingFailed => ErrorModel::DecodingFailed,
            Error::DecryptionFailed => ErrorModel::DecryptionFailed,
            Error::EncryptionFailed => ErrorModel::EncryptionFailed,
            Error::IncorrectMAC => ErrorModel::IncorrectMAC,
            Error::InvalidDataLength => ErrorModel::InvalidDataLength,
            Error::InvalidPrefix { received, expected } => ErrorModel::InvalidPrefix {
                received: received@,
                expected: expected@,
            },
            Error::SentinelMismatch { received, expected } => ErrorModel::SentinelMismatch {
                received: *received,
                expected: *expected,
            },
        }
    }
}

/// The character of a decimal digit.
pub open spec fn digit_char(d: nat) -> char {
    (48 + d) as u32 as char
}

/// `n` in decimal, without leading zeros.
pub open spec fn decimal(n: nat) -> Seq<char>
    decreases n,
{
    if n < 10 {
        seq![digit_char(n)]
    } else {
        decimal(n / 10).push(digit_char(n % 10))
    }
}

/// The message that describes an error.
pub open spec fn message_of(e: ErrorModel) -> Seq<char> {
    match e {
        ErrorModel::DecodingFailed => "Decoding string failed"@,
        ErrorModel::DecryptionFailed => "FF1 decryption failed"@,
        ErrorModel::EncryptionFailed => "FF1 encryption failed"@,
        ErrorModel::IncorrectMAC => "Incorrect MAC"@,
        ErrorModel::InvalidDataLength => "Invalid data length"@,
        ErrorModel::SentinelMismatch { received, expected } => "Sentinel byte was "@ + decimal(
            received as nat,
        ) + ", expected "@ + decimal(expected as nat),
        ErrorModel::InvalidPrefix { received, expected } => "Prefix was "@ + received
            + ", expected "@ + expected,
    }
}

/// Appends the decimal digit `d`.
fn push_digit(out: &mut String, d: u8)
    requires
        d < 10,
    ensures
        final(out)@ == old(out)@.push(digit_char(d as nat)),
{
    let digits = "0123456789";
    proof {
        reveal_strlit("0123456789");
    }
    let one = digits.substring_char(d as usize, d as usize + 1);
    assert(one@ =~= seq![digit_char(d as nat)]);
    out.append(one);
}

/// Appends `n` in decimal.
fn push_decimal(out: &mut String, n: u8)
    ensures
        final(out)@ == old(out)@ + decimal(n as nat),
{
    let ghost start = old(out)@;
    if n >= 100 {
        push_digit(out, n / 100);
    }
    if n >= 10 {
        push_digit(out, (n / 10) % 10);
    }
    push_digit(out, n % 10);
    proof {
        if n >= 100 {
            assert(decimal((n / 100) as nat) =~= seq![digit_char((n / 100) as nat)]);
            assert(decimal((n / 10) as nat) =~= seq![digit_char((n / 100) as nat)].push(
                digit_char(((n / 10) % 10) as nat),
            ));
        } else if n >= 10 {
            assert(decimal((n / 10) as nat) =~= seq![digit_char((n / 10) as nat)]);
        }
        assert(final(out)@ =~= start + decimal(n as nat));
    }
}

impl Error {
    /// A readable description of the error.
    pub fn message(&self) -> (r: String)
        ensures
            r@ == message_of(self@),
    {
        match self {
            Error::DecodingFailed => String::from_str("Decoding string failed"),
            Error::DecryptionFailed => String::from_str("FF1 decryption failed"),
            Error::EncryptionFailed => String::from_str("FF1 encryption failed"),
            Error::IncorrectMAC => String::from_str("Incorrect MAC"),
            Error::InvalidDataLength => String::from_str("Invalid data length"),
            Error::SentinelMismatch { received, expected } => {
                let mut out = String::from_str("Sentinel byte was ");
                push_decimal(&mut out, *received);
                out.append(", expected ");
                push_decimal(&mut out, *expected);
                out
            },
            Error::InvalidPrefix { received, expected } => {
                let mut out = String::from_str("Prefix was ");
                out.append(received.as_str());
                out.append(", expected ");
                out.append(expected.as_str());
                out
            },
        }
    }
}

/// A decoding result with its error seen as an `ErrorModel`.
pub open spec fn outcome(r: Result<u64, Error>) -> Result<u64, ErrorModel> {
    match r {
        Ok(v) => Ok(v),
        Err(e) => Err(e@),
    }
}

/// The plaintext for `n`: its little-endian bytes, high zero bytes dropped,
/// but at least `pad` of them.
pub open spec fn plaintext(n: u64, pad: nat) -> Seq<u8> {
    le_bytes(n as nat, if byte_len(n as nat) < pad { pad } else { byte_len(n as nat) })
}

/// The first `mac_len` bytes of the HMAC of `ct`.
pub open spec fn tag(mac_key: Seq<u8>, ct: Seq<u8>, mac_len: nat) -> Seq<u8> {
    hmac_sha256(mac_key, ct).take(mac_len as int)
}

/// The encrypted plaintext of `n` followed by its tag.
pub open spec fn payload(
    ff1_key: Seq<u8>,
    mac_key: Seq<u8>,
    mac_len: nat,
    pad: nat,
    n: u64,
) -> Seq<u8> {
    let ct = ff1_encrypt(ff1_key, plaintext(n, pad));
    ct + tag(mac_key, ct, mac_len)
}

/// A payload laid into the packed buffer: when shorter than sixteen bytes it
/// is followed by the sentinel and then zeros.
pub open spec fn frame(p: Seq<u8>) -> Seq<u8> {
    if p.len() < MAX_BUFFER {
        p + seq![SENTINEL] + Seq::new((MAX_BUFFER - 1 - p.len()) as nat, |i: int| 0u8)
    } else {
        p
    }
}

/// FF1 under `key` keeps the length of `pt` and decryption gives `pt` back:
/// what the cipher guarantees, recorded for the plaintexts it was run on.
pub open spec fn cipher_inverts(key: Seq<u8>, pt: Seq<u8>) -> bool {
    &&& ff1_encrypt(key, pt).len() == pt.len()
    &&& ff1_decrypt(key, ff1_encrypt(key, pt)) == pt
}

/// The lengths a codec can work with: tag of at most eight bytes; padding of
/// three to eight bytes, so that FF1 always has 20 bits or more; and, with an
/// eight-byte tag, eight bytes of padding, so that a payload either leaves
/// room for the sentinel or fills the buffer whatever the number.
pub open spec fn lengths_supported(mac_len: nat, pad: nat) -> bool {
    &&& mac_len <= 8
    &&& MIN_CIPHER_BYTES <= pad <= 8
    &&& (mac_len < 8 || pad == 8)
}

/// Encodes numbers into `<name>_<base62>` tokens and decodes them back.
///
/// It holds the two keys derived for its name; the cipher and the MAC are
/// keyed from them at each use. It never changes once built.
pub struct Codec {
    ff1_key: Vec<u8>,
    mac_key: Vec<u8>,
    hmac_length: usize,
    prefix: String,
    zero_pad_length: usize,
}

impl Codec {
    /// The FF1 key.
    pub closed spec fn ff1_key_view(&self) -> Seq<u8> {
        self.ff1_key@
    }

    /// The HMAC key.
    pub closed spec fn mac_key_view(&self) -> Seq<u8> {
        self.mac_key@
    }

    /// The number of tag bytes.
    pub closed spec fn mac_len(&self) -> nat {
        self.hmac_length as nat
    }

    /// The number of bytes plaintexts are padded to.
    pub closed spec fn pad_len(&self) -> nat {
        self.zero_pad_length as nat
    }

    /// The name followed by an underscore.
    pub closed spec fn prefix_view(&self) -> Seq<char> {
        self.prefix@
    }

    /// Keys of 32 bytes, supported lengths, and a prefix ending in `_`.
    #[verifier::type_invariant]
    pub closed spec fn inv(&self) -> bool {
        &&& self.ff1_key@.len() == 32
        &&& self.mac_key@.len() == 32
        &&& lengths_supported(self.hmac_length as nat, self.zero_pad_length as nat)
        &&& self.prefix@.len() > 0
        &&& self.prefix@.last() == '_'
    }

    /// The packed value for `n`.
    pub open spec fn packed(&self, n: u64) -> nat {
        le_value(
            frame(
                payload(self.ff1_key_view(), self.mac_key_view(), self.mac_len(), self.pad_len(), n),
            ),
        )
    }

    /// The codec's keys are derived from the master key with labels made of
    /// `name`, its lengths are the configuration's, and its prefix is `name`
    /// and an underscore.
    pub open spec fn built_from(&self, name: Seq<char>, config: &Config) -> bool {
        &&& self.ff1_key_view() == hkdf_sha256(config.key_view(), name + "/ff1"@)
        &&& self.mac_key_view() == hkdf_sha256(config.key_view(), name + "/hmac"@)
        &&& self.mac_len() == config.mac_len()
        &&& self.pad_len() == config.pad_len()
        &&& self.prefix_view() == name + "_"@
    }

    /// The lengths and the prefix are those a codec is built with.
    pub open spec fn wf(&self) -> bool {
        &&& lengths_supported(self.mac_len(), self.pad_len())
        &&& self.prefix_view().len() > 0
        &&& self.prefix_view().last() == '_'
    }

    /// What the cipher and the MAC showed when `n` was encrypted: FF1 kept
    /// the plaintext's length and decrypts back to it, and the HMAC has its
    /// full 32 bytes.
    pub open spec fn primitives_hold(&self, n: u64) -> bool {
        let pt = plaintext(n, self.pad_len());
        &&& cipher_inverts(self.ff1_key_view(), pt)
        &&& hmac_sha256(self.mac_key_view(), ff1_encrypt(self.ff1_key_view(), pt)).len() == 32
    }

    /// `s` is what `encode` returns for `n`.
    pub open spec fn encodes(&self, n: u64, s: Seq<char>) -> bool {
        &&& self.wf()
        &&& s == self.token(n)
        &&& self.primitives_hold(n)
    }

    /// The FF1 ciphertext in the UUID for `n`.
    pub open spec fn uuid_ciphertext(&self, n: u64) -> Seq<u8> {
        ff1_encrypt(self.ff1_key_view(), plaintext(n, UUID_SETTING as nat))
    }

    /// What the cipher and the MAC showed when `n` was encrypted for a UUID.
    pub open spec fn uuid_primitives_hold(&self, n: u64) -> bool {
        &&& cipher_inverts(self.ff1_key_view(), plaintext(n, UUID_SETTING as nat))
        &&& hmac_sha256(self.mac_key_view(), self.uuid_ciphertext(n)).len() == 32
    }

    /// `u` is what `encode_uuid` returns for `n`: the UUID of its 128-bit
    /// value, which no other value gives.
    pub open spec fn encodes_uuid(&self, n: u64, u: uuid::Uuid) -> bool {
        &&& self.uuid_primitives_hold(n)
        &&& u == uuid_from_le(self.uuid_value(n) as u128)
        &&& forall|m: u128| #[trigger] uuid_from_le(m) == u ==> m == self.uuid_value(n) as u128
    }

    /// The UUID value is eight bytes of ciphertext followed by eight of tag,
    /// and fits in 128 bits.
    pub proof fn lemma_uuid_layout(&self, n: u64)
        requires
            self.uuid_primitives_hold(n),
        ensures
            self.uuid_ciphertext(n).len() == 8,
            self.uuid_value(n) < 0x1_0000_0000_0000_0000_0000_0000_0000_0000,
            le_bytes(self.uuid_value(n), MAX_BUFFER as nat) == self.uuid_ciphertext(n) + tag(
                self.mac_key_view(),
                self.uuid_ciphertext(n),
                UUID_SETTING as nat,
            ),
    {
        let ct = self.uuid_ciphertext(n);
        let p = ct + tag(self.mac_key_view(), ct, UUID_SETTING as nat);
        lemma_plaintext_len(n, UUID_SETTING as nat);
        assert(p.len() == 16);
        crate::bytes::lemma_le_bytes_of_value(p);
        assert(vstd::arithmetic::power::pow(256, 16) == 0x1_0000_0000_0000_0000_0000_0000_0000_0000) by {
            reveal_with_fuel(vstd::arithmetic::power::pow, 17);
        }
    }

    /// The token for `n`.
    pub open spec fn token(&self, n: u64) -> Seq<char> {
        self.prefix_view() + b62_text(self.packed(n))
    }

    /// The 128-bit value behind the UUID for `n`.
    pub open spec fn uuid_value(&self, n: u64) -> nat {
        le_value(
            payload(
                self.ff1_key_view(),
                self.mac_key_view(),
                UUID_SETTING as nat,
                UUID_SETTING as nat,
                n,
            ),
        )
    }

    /// A codec for objects called `name`, with keys derived from the
    /// configuration's master key.
    pub fn new(name: &str, config: &Config) -> (r: Result<Codec, ConfigError>)
        ensures
            config.mac_len() > 8 ==> r == Err::<Codec, ConfigError>(ConfigError::InvalidMacLength),
            config.mac_len() <= 8 && (config.pad_len() < MIN_CIPHER_BYTES || config.pad_len() > 8)
                ==> r == Err::<Codec, ConfigError>(ConfigError::InvalidZeroPadLength),
            config.mac_len() == 8 && MIN_CIPHER_BYTES <= config.pad_len() < 8 ==> r == Err::<
                Codec,
                ConfigError,
            >(ConfigError::InvalidLengthCombination),
            r is Ok <==> lengths_supported(config.mac_len(), config.pad_len()),
            r is Ok ==> r->Ok_0.built_from(name@, config),
    {
        let hmac_length = config.mac_length();
        let zero_pad_length = config.pad_length();
        if hmac_length > 8 {
            return Err(ConfigError::InvalidMacLength);
        }
        if zero_pad_length < MIN_CIPHER_BYTES as u8 || zero_pad_length > 8 {
            return Err(ConfigError::InvalidZeroPadLength);
        }
        if hmac_length == 8 && zero_pad_length < 8 {
            return Err(ConfigError::InvalidLengthCombination);
        }
        let mut ff1_label = String::from_str(name);
        ff1_label.append("/ff1");
        let mut hmac_label = String::from_str(name);
        hmac_label.append("/hmac");
        let mut prefix = String::from_str(name);
        prefix.append("_");
        proof {
            reveal_strlit("_");
        }
        Ok(
            Codec {
                ff1_key: derive_key(config.key(), ff1_label.as_str()),
                mac_key: derive_key(config.key(), hmac_label.as_str()),
                hmac_length: hmac_length as usize,
                prefix,
                zero_pad_length: zero_pad_length as usize,
            },
        )
    }
}

/// A plaintext is as long as the number needs, and at least `pad` long.
pub proof fn lemma_plaintext_len(n: u64, pad: nat)
    ensures
        plaintext(n, pad).len() == if byte_len(n as nat) < pad { pad } else { byte_len(n as nat) },
        plaintext(n, pad).len() >= pad,
        pad <= 8 ==> plaintext(n, pad).len() <= 8,
{
    crate::bytes::lemma_byte_len_u64(n);
    crate::bytes::lemma_le_bytes_len(
        n as nat,
        if byte_len(n as nat) < pad { pad } else { byte_len(n as nat) },
    );
}

/// `ct` followed by the first `n` bytes of `tag_bytes`.
fn append_prefix(ct: Vec<u8>, tag_bytes: &Vec<u8>, n: usize) -> (r: Vec<u8>)
    requires
        n <= tag_bytes@.len(),
    ensures
        r@ == ct@ + tag_bytes@.take(n as int),
{
    let mut out = ct;
    let ghost start = out@;
    let mut i: usize = 0;
    while i < n
        invariant
            i <= n <= tag_bytes@.len(),
            out@ == start + tag_bytes@.take(i as int),
        decreases n - i,
    {
        out.push(tag_bytes[i]);
        i = i + 1;
        assert(out@ =~= start + tag_bytes@.take(i as int));
    }
    out
}

/// Encrypts the plaintext of `num` and appends its truncated tag; FF1's
/// refusal is `EncryptionFailed`.
fn encrypt_number(
    ff1_key: &Vec<u8>,
    mac_key: &Vec<u8>,
    hmac_length: usize,
    zero_pad_length: usize,
    num: u64,
) -> (r: Result<Vec<u8>, Error>)
    requires
        ff1_key@.len() == 32,
        hmac_length <= 8,
        zero_pad_length <= 8,
    ensures
        r is Ok <==> plaintext(num, zero_pad_length as nat).len() >= MIN_CIPHER_BYTES,
        r is Err ==> r->Err_0 == Error::EncryptionFailed,
        r is Ok ==> r->Ok_0@ == payload(
            ff1_key@,
            mac_key@,
            hmac_length as nat,
            zero_pad_length as nat,
            num,
        ),
        r is Ok ==> r->Ok_0@.len() == plaintext(num, zero_pad_length as nat).len() + hmac_length,
        r is Ok ==> cipher_inverts(ff1_key@, plaintext(num, zero_pad_length as nat)),
        r is Ok ==> hmac_sha256(mac_key@, ff1_encrypt(ff1_key@, plaintext(num, zero_pad_length as nat))).len() == 32,
{
    let pt = num_to_le_vec(num, zero_pad_length);
    proof {
        crate::bytes::lemma_le_bytes_len(num as nat, pt@.len());
    }
    match ff1_encrypt_bytes(ff1_key.as_slice(), pt.as_slice()) {
        None => Err(Error::EncryptionFailed),
        Some(ct) => {
            let full_mac = mac_bytes(mac_key.as_slice(), ct.as_slice());
            Ok(append_prefix(ct, &full_mac, hmac_length))
        },
    }
}

/// The sixteen-byte buffer for a payload: the payload, then, if there is
/// room, the sentinel and zeros.
fn frame_bytes(p: Vec<u8>) -> (r: Vec<u8>)
    requires
        p@.len() <= MAX_BUFFER,
    ensures
        r@ == frame(p@),
        r@.len() == MAX_BUFFER,
{
    let mut buf = p;
    let ghost start = buf@;
    if buf.len() < MAX_BUFFER {
        buf.push(SENTINEL);
        let ghost with_sentinel = buf@;
        while buf.len() < MAX_BUFFER
            invariant
                with_sentinel.len() <= buf@.len() <= MAX_BUFFER,
                buf@ == with_sentinel + Seq::new((buf@.len() - with_sentinel.len()) as nat, |i: int| 0u8),
            decreases MAX_BUFFER - buf@.len(),
        {
            buf.push(0);
            assert(buf@ =~= with_sentinel + Seq::new((buf@.len() - with_sentinel.len()) as nat, |i: int| 0u8));
        }
        assert(buf@ =~= frame(start));
    }
    buf
}

/// The packed value of a payload of at most sixteen bytes.
pub fn pack_payload(p: Vec<u8>) -> (r: u128)
    requires
        p@.len() <= MAX_BUFFER,
    ensures
        r == le_value(frame(p@)),
{
    let buf = frame_bytes(p);
    le_to_u128(buf.as_slice())
}

impl Codec {
    /// The packed value for `num`, and what the primitives gave for it.
    fn encode_u128(&self, num: u64) -> (r: u128)
        ensures
            r == self.packed(num),
            self.primitives_hold(num),
    {
        proof {
            use_type_invariant(self);
            crate::bytes::lemma_byte_len_u64(num);
            lemma_plaintext_len(num, self.pad_len());
        }
        match encrypt_number(&self.ff1_key, &self.mac_key, self.hmac_length, self.zero_pad_length, num) {
            Ok(p) => pack_payload(p),
            // Padding of three bytes or more always gives FF1 enough bits.
            Err(_) => {
                proof {
                    assert(false);
                }
                0
            },
        }
    }

    /// The token for `num`: the prefix, then the base62 text of the packed
    /// value.
    pub fn encode(&self, num: u64) -> (r: String)
        ensures
            r@ == self.token(num),
            self.encodes(num, r@),
    {
        proof {
            use_type_invariant(self);
        }
        let packed = self.encode_u128(num);
        let text = encode_b62(packed);
        let mut out = self.prefix.clone();
        out.append(text.as_str());
        out
    }

    /// The 128-bit value behind the UUID for `num`: eight bytes of ciphertext
    /// and eight of tag, whatever the configured lengths.
    pub fn encode_uuid_u128(&self, num: u64) -> (r: u128)
        ensures
            r == self.uuid_value(num),
            self.uuid_primitives_hold(num),
            le_bytes(r as nat, MAX_BUFFER as nat).take(8) == self.uuid_ciphertext(num),
            le_bytes(r as nat, MAX_BUFFER as nat).skip(8) == tag(
                self.mac_key_view(),
                self.uuid_ciphertext(num),
                UUID_SETTING as nat,
            ),
    {
        proof {
            use_type_invariant(self);
            crate::bytes::lemma_byte_len_u64(num);
            lemma_plaintext_len(num, UUID_SETTING as nat);
        }
        match encrypt_number(&self.ff1_key, &self.mac_key, UUID_SETTING, UUID_SETTING, num) {
            Ok(p) => {
                proof {
                    self.lemma_uuid_layout(num);
                }
                le_to_u128(p.as_slice())
            },
            // Padding of three bytes or more always gives FF1 enough bits.
            Err(_) => {
                proof {
                    assert(false);
                }
                0
            },
        }
    }

    /// The UUID for `num`, read little-endian from its 128-bit value.
    pub fn encode_uuid(&self, num: u64) -> (r: uuid::Uuid)
        ensures
            r == uuid_from_le(self.uuid_value(num) as u128),
            self.encodes_uuid(num, r),
    {
        uuid_from_u128_le(self.encode_uuid_u128(num))
    }
}

/// The first `n` bytes of `expected` equal `received`, compared without
/// stopping at the first difference.
pub fn tags_match(expected: &Vec<u8>, received: &Vec<u8>, n: usize) -> (r: bool)
    requires
        n <= expected@.len(),
        received@.len() == n,
    ensures
        r == (expected@.take(n as int) == received@),
{
    let mut diff: u8 = 0;
    let mut i: usize = 0;
    while i < n
        invariant
            i <= n <= expected@.len(),
            received@.len() == n,
            (diff == 0) <==> (forall|j: int| 0 <= j < i ==> expected@[j] == received@[j]),
        decreases n - i,
    {
        let x = expected[i];
        let y = received[i];
        let d = diff;
        assert((d | (x ^ y)) == 0 <==> (d == 0 && x == y)) by (bit_vector);
        diff = diff | (x ^ y);
        i = i + 1;
    }
    assert((diff == 0) <==> expected@.take(n as int) =~= received@);
    diff == 0
}

/// One past the last underscore of `chars`, or 0 when there is none.
fn prefix_end(chars: &Vec<char>) -> (r: usize)
    ensures
        r == last_underscore(chars@) + 1,
{
    let mut i: usize = chars.len();
    assert(chars@.take(i as int) =~= chars@);
    while i > 0
        invariant
            i <= chars@.len(),
            last_underscore(chars@) == last_underscore(chars@.take(i as int)),
        decreases i,
    {
        if chars[i - 1] == '_' {
            return i;
        }
        assert(chars@.take(i as int).drop_last() =~= chars@.take(i - 1));
        i = i - 1;
    }
    0
}

impl Codec {
    /// What a payload decodes to: its minimum length is checked, then its
    /// tag, then its ciphertext is decrypted, which must give at most eight
    /// bytes.
    pub open spec fn payload_outcome(&self, p: Seq<u8>) -> Result<u64, ErrorModel> {
        let mac_len = self.mac_len();
        if p.len() < mac_len + self.pad_len() {
            Err(ErrorModel::InvalidDataLength)
        } else {
            let ct = p.take(p.len() - mac_len);
            if tag(self.mac_key_view(), ct, mac_len) != p.skip(p.len() - mac_len) {
                Err(ErrorModel::IncorrectMAC)
            } else if ct.len() < MIN_CIPHER_BYTES {
                Err(ErrorModel::DecryptionFailed)
            } else if ct.len() > 8 {
                // Longer than any number's ciphertext: the tag matched, but
                // the plaintext cannot be a `u64`.
                Err(ErrorModel::InvalidDataLength)
            } else {
                Ok(le_value(ff1_decrypt(self.ff1_key_view(), ct)) as u64)
            }
        }
    }

    /// What the sixteen bytes of a packed value decode to: when the lengths
    /// leave room for a sentinel, the last non-zero byte must be the sentinel
    /// and the payload is what precedes it; otherwise all sixteen bytes are
    /// the payload.
    pub open spec fn buffer_outcome(&self, b: Seq<u8>) -> Result<u64, ErrorModel> {
        if self.mac_len() + self.pad_len() < MAX_BUFFER {
            let i = last_nonzero_index(b) as int;
            if b[i] != SENTINEL {
                Err(ErrorModel::SentinelMismatch { received: b[i], expected: SENTINEL })
            } else {
                self.payload_outcome(b.take(i))
            }
        } else {
            self.payload_outcome(b)
        }
    }

    /// What a token decodes to: its prefix is checked, then its base62 text
    /// is read, then the sixteen bytes of that value are opened.
    pub open spec fn decode_spec(&self, s: Seq<char>) -> Result<u64, ErrorModel> {
        let received = received_prefix(s);
        if received != self.prefix_view() {
            Err(ErrorModel::InvalidPrefix { received, expected: self.prefix_view() })
        } else {
            let tail = s.skip(received.len() as int);
            if !b62_accepts(tail) {
                Err(ErrorModel::DecodingFailed)
            } else {
                self.buffer_outcome(le_bytes(b62_value(tail), MAX_BUFFER as nat))
            }
        }
    }

    /// Checks the length and the tag of a payload, then decrypts it.
    fn decrypt_number(&self, p: Vec<u8>) -> (r: Result<u64, Error>)
        requires
            p@.len() <= MAX_BUFFER,
        ensures
            outcome(r) == self.payload_outcome(p@),
    {
        proof {
            use_type_invariant(self);
        }
        let n = p.len();
        if n < self.hmac_length + self.zero_pad_length {
            return Err(Error::InvalidDataLength);
        }
        let mut ct = p;
        let received_tag = ct.split_off(n - self.hmac_length);
        let full_mac = mac_bytes(self.mac_key.as_slice(), ct.as_slice());
        if !tags_match(&full_mac, &received_tag, self.hmac_length) {
            return Err(Error::IncorrectMAC);
        }
        match ff1_decrypt_bytes(self.ff1_key.as_slice(), ct.as_slice()) {
            None => Err(Error::DecryptionFailed),
            Some(pt) => {
                if pt.len() > 8 {
                    Err(Error::InvalidDataLength)
                } else {
                    Ok(le_vec_to_num(pt.as_slice()))
                }
            },
        }
    }

    /// The number behind a token, or the first check it fails.
    pub fn decode(&self, encoded: &str) -> (r: Result<u64, Error>)
        ensures
            outcome(r) == self.decode_spec(encoded@),
    {
        let chars = chars_of(encoded);
        let cut = prefix_end(&chars);
        proof {
            crate::text::lemma_last_underscore_bounds(encoded@);
        }
        let received = String::from_str(encoded.substring_char(0, cut));
        if !(received == self.prefix) {
            return Err(Error::InvalidPrefix { received, expected: self.prefix.clone() });
        }
        let tail = encoded.substring_char(cut, chars.len());
        let value = match decode_b62(tail) {
            Some(v) => v,
            None => {
                return Err(Error::DecodingFailed);
            },
        };
        let buf = le_bytes_of(value, MAX_BUFFER);
        proof {
            crate::bytes::lemma_le_bytes_len(value as nat, MAX_BUFFER as nat);
            use_type_invariant(self);
        }
        if self.hmac_length + self.zero_pad_length < MAX_BUFFER {
            let idx = last_nonzero(buf.as_slice());
            proof {
                lemma_last_nonzero_bounds(buf@);
            }
            if buf[idx] != SENTINEL {
                return Err(Error::SentinelMismatch { received: buf[idx], expected: SENTINEL });
            }
            let mut p = buf;
            p.truncate(idx);
            self.decrypt_number(p)
        } else {
            self.decrypt_number(buf)
        }
    }
}

} // verus!
