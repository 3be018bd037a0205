//! Settings shared by the codecs of one application.
use vstd::prelude::*;

verus! {

/// The largest number of tag bytes, and of zero-padding bytes.
pub const MAX_SETTING: u8 = 8;

/// The master key and the two length settings of a codec.
///
/// Both lengths are at most eight; the setters refuse anything larger.
#[derive(Clone)]
pub struct Config {
    pub(crate) hmac_length: u8,
    pub(crate) key: Vec<u8>,
    pub(crate) zero_pad_length: u8,
}

/// A setting that a configuration or a codec cannot take.
#[derive(Debug, PartialEq, Eq, Structural)]
pub enum ConfigError {
    InvalidMacLength,
    InvalidVersion,
    InvalidZeroPadLength,
    /// With eight tag bytes a full-length number leaves no room for the
    /// sentinel byte, so only zero padding of eight can be decoded.
    InvalidLengthCombination,
}

impl Config {
    /// The master key.
    pub closed spec fn key_view(&self) -> Seq<u8> {
        self.key@
    }

    /// The number of tag bytes.
    pub closed spec fn mac_len(&self) -> nat {
        self.hmac_length as nat
    }

    /// The number of bytes the plaintext is padded to.
    pub closed spec fn pad_len(&self) -> nat {
        self.zero_pad_length as nat
    }

    /// Both lengths are within bounds.
    pub open spec fn wf(&self) -> bool {
        self.mac_len() <= MAX_SETTING && self.pad_len() <= MAX_SETTING
    }

    /// The master key.
    pub fn key(&self) -> (r: &[u8])
        ensures
            r@ == self.key_view(),
    {
        self.key.as_slice()
    }

    /// The number of tag bytes.
    pub fn mac_length(&self) -> (r: u8)
        ensures
            r as nat == self.mac_len(),
    {
        self.hmac_length
    }

    /// The number of bytes the plaintext is padded to.
    pub fn pad_length(&self) -> (r: u8)
        ensures
            r as nat == self.pad_len(),
    {
        self.zero_pad_length
    }

    /// A configuration with the given master key, four tag bytes and four
    /// bytes of zero padding.
    pub fn new(key: &[u8]) -> (r: Config)
        ensures
            r.wf(),
            r.key_view() == key@,
            r.mac_len() == 4,
            r.pad_len() == 4,
    {
        Config { hmac_length: 4, key: vstd::slice::slice_to_vec(key), zero_pad_length: 4 }
    }

    /// Sets the number of tag bytes, which must be at most eight.
    pub fn hmac_length(self, hmac_length: u8) -> (r: Result<Config, ConfigError>)
        ensures
            hmac_length > MAX_SETTING ==> r == Err::<Config, ConfigError>(
                ConfigError::InvalidMacLength,
            ),
            hmac_length <= MAX_SETTING ==> r is Ok && r->Ok_0.mac_len() == hmac_length
                && r->Ok_0.key_view() == self.key_view() && r->Ok_0.pad_len() == self.pad_len(),
            self.wf() && r is Ok ==> r->Ok_0.wf(),
    {
        if hmac_length > MAX_SETTING {
            Err(ConfigError::InvalidMacLength)
        } else {
            Ok(Config { hmac_length, ..self })
        }
    }

    /// Sets the number of bytes the plaintext is padded to, at most eight.
    pub fn zero_pad_length(self, zero_pad_length: u8) -> (r: Result<Config, ConfigError>)
        ensures
            zero_pad_length > MAX_SETTING ==> r == Err::<Config, ConfigError>(
                ConfigError::InvalidZeroPadLength,
            ),
            zero_pad_length <= MAX_SETTING ==> r is Ok && r->Ok_0.pad_len() == zero_pad_length
                && r->Ok_0.key_view() == self.key_view() && r->Ok_0.mac_len() == self.mac_len(),
            self.wf() && r is Ok ==> r->Ok_0.wf(),
    {
        if zero_pad_length > MAX_SETTING {
            Err(ConfigError::InvalidZeroPadLength)
        } else {
            Ok(Config { zero_pad_length, ..self })
        }
    }
}

} // verus!
