use cryptid::{
    decode_b62, encode_b62, last_nonzero, le_vec_to_num, num_to_le_vec, pack_payload, tags_match,
    Codec, Config, ConfigError, Error, Field, TypeMarker,
};

fn codec(name: &str, key: &[u8], hmac_length: u8, zero_pad_length: u8) -> Codec {
    let config = Config::new(key)
        .hmac_length(hmac_length)
        .unwrap()
        .zero_pad_length(zero_pad_length)
        .unwrap();
    Codec::new(name, &config).unwrap()
}

#[test]
fn round_trip_at_the_extremes() {
    for (mac, pad) in [(0, 3), (8, 8), (4, 4), (7, 3), (0, 8), (7, 8)] {
        let c = codec("test", b"Test key here", mac, pad);
        for n in [0, 1, 123, 255, 256, 65535, 65536, 1 << 40, u64::MAX] {
            assert_eq!(c.decode(&c.encode(n)), Ok(n), "mac {} pad {} n {}", mac, pad, n);
        }
    }
}

#[test]
fn encoding_is_deterministic() {
    let a = codec("test", b"Test key here", 4, 4);
    let b = codec("test", b"Test key here", 4, 4);
    for n in [0, 7, 123456789, u64::MAX] {
        assert_eq!(a.encode(n), a.encode(n));
        assert_eq!(a.encode(n), b.encode(n));
        assert_eq!(a.encode_uuid(n), b.encode_uuid(n));
    }
}

#[test]
fn prefix_isolation() {
    let a = codec("user", b"Test key here", 4, 4);
    let b = codec("order", b"Test key here", 4, 4);
    let token = a.encode(42);
    assert!(token.starts_with("user_"));
    assert_eq!(
        b.decode(&token),
        Err(Error::InvalidPrefix {
            received: "user_".to_string(),
            expected: "order_".to_string()
        })
    );
}

#[test]
fn prefix_with_underscores_in_name() {
    let a = codec("line_item", b"Test key here", 4, 4);
    let b = codec("line", b"Test key here", 4, 4);
    let token = a.encode(9);
    assert_eq!(a.decode(&token), Ok(9));
    assert_eq!(
        b.decode(&token),
        Err(Error::InvalidPrefix {
            received: "line_item_".to_string(),
            expected: "line_".to_string()
        })
    );
}

#[test]
fn key_isolation() {
    let a = codec("test", b"Test key here", 4, 4);
    let b = codec("test", b"Another key", 4, 4);
    for n in [0, 1, 123, u64::MAX] {
        assert_eq!(b.decode(&a.encode(n)), Err(Error::IncorrectMAC));
    }
}

#[test]
fn tampered_tokens_do_not_decode_to_the_original() {
    let c = codec("test", b"Test key here", 4, 4);
    let token = c.encode(123);
    let alphabet = "0123456789ABCDEFGHIJKLMNOPQRSTUVWXYZabcdefghijklmnopqrstuvwxyz";
    let chars: Vec<char> = token.chars().collect();
    for i in 0..chars.len() {
        for a in alphabet.chars() {
            if a == chars[i] {
                continue;
            }
            let mut altered = chars.clone();
            altered[i] = a;
            let altered: String = altered.into_iter().collect();
            assert_ne!(c.decode(&altered), Ok(123), "{}", altered);
        }
    }
}

#[test]
fn literal_vectors() {
    let c = Codec::new("test", &Config::new(b"Test key here")).unwrap();
    assert_eq!(c.encode(0), "test_g1HdsEGpXp5");
    assert_eq!(c.encode(1), "test_bTPc8uxHEwv");
    assert_eq!(c.encode(123), "test_hHLBCl4rZ3u");
    assert_eq!(c.encode(u64::MAX), "test_20cMzlnhTkILdJzWt");
}

#[test]
fn uuid_value_is_fixed() {
    let c = Codec::new("test", &Config::new(b"Test key here")).unwrap();
    let uuid = c.encode_uuid(0);
    assert_eq!(uuid.to_string(), "59142369-adeb-8ef9-a1be-28f61c05d4d6");
    assert_eq!(uuid.to_u128_le(), c.encode_uuid_u128(0));
}

#[test]
fn empty_and_short_bodies() {
    let c = codec("test", b"Test key here", 4, 4);
    assert_eq!(c.decode("test_"), Err(Error::DecodingFailed));
    assert_eq!(
        c.decode("test_0"),
        Err(Error::SentinelMismatch { received: 0, expected: 1 })
    );
    // Value 1: a sentinel with nothing before it.
    assert_eq!(c.decode("test_1"), Err(Error::InvalidDataLength));
    // A value beyond 128 bits.
    assert_eq!(c.decode("test_zzzzzzzzzzzzzzzzzzzzzzz"), Err(Error::DecodingFailed));
    assert_eq!(c.decode("test_ü"), Err(Error::DecodingFailed));
}

#[test]
fn payload_longer_than_any_number() {
    // Without a tag, a sentinel in the top byte leaves fifteen payload bytes.
    let c = codec("test", b"Test key here", 0, 3);
    let token = format!("test_{}", encode_b62(1u128 << 120));
    assert_eq!(c.decode(&token), Err(Error::InvalidDataLength));
}

#[test]
fn config_setters() {
    assert!(matches!(
        Config::new(b"k").hmac_length(9),
        Err(ConfigError::InvalidMacLength)
    ));
    assert!(matches!(
        Config::new(b"k").zero_pad_length(9),
        Err(ConfigError::InvalidZeroPadLength)
    ));
    let c = Config::new(b"k").hmac_length(0).unwrap().zero_pad_length(8).unwrap();
    assert_eq!(c.mac_length(), 0);
    assert_eq!(c.pad_length(), 8);
    assert_eq!(c.key(), b"k");
    let d = Config::new(b"key");
    assert_eq!(d.mac_length(), 4);
    assert_eq!(d.pad_length(), 4);
}

#[test]
fn codec_refuses_unsupported_lengths() {
    let short_pad = Config::new(b"k").zero_pad_length(2).unwrap();
    assert!(matches!(
        Codec::new("x", &short_pad),
        Err(ConfigError::InvalidZeroPadLength)
    ));
    let full_tag = Config::new(b"k").hmac_length(8).unwrap();
    assert!(matches!(
        Codec::new("x", &full_tag),
        Err(ConfigError::InvalidLengthCombination)
    ));
}

#[test]
fn base62_text() {
    assert_eq!(encode_b62(0), "0");
    assert_eq!(encode_b62(61), "z");
    assert_eq!(encode_b62(62), "10");
    assert_eq!(encode_b62(1337), "LZ");
    assert_eq!(decode_b62("LZ"), Some(1337));
    assert_eq!(decode_b62("00LZ"), Some(1337));
    assert_eq!(decode_b62(""), None);
    assert_eq!(decode_b62("a+b"), None);
    assert_eq!(decode_b62(&encode_b62(u128::MAX)), Some(u128::MAX));
}

#[test]
fn byte_helpers() {
    assert_eq!(num_to_le_vec(0, 0), vec![0]);
    assert_eq!(num_to_le_vec(0, 4), vec![0, 0, 0, 0]);
    assert_eq!(num_to_le_vec(0x0102_0304, 2), vec![4, 3, 2, 1]);
    assert_eq!(num_to_le_vec(u64::MAX, 3), vec![255; 8]);
    assert_eq!(le_vec_to_num(&[4, 3, 2, 1]), 0x0102_0304);
    assert_eq!(le_vec_to_num(&[]), 0);
    assert_eq!(last_nonzero(&[0, 5, 0, 7, 0, 0]), 3);
    assert_eq!(last_nonzero(&[0, 0]), 0);
    assert_eq!(last_nonzero(&[]), 0);
}

#[derive(Debug)]
struct UserMarker;

impl TypeMarker for UserMarker {
    fn name() -> &'static str {
        "user"
    }
}

#[test]
fn field_holds_its_number() {
    let f: Field<UserMarker> = Field::from(12345);
    assert_eq!(f.id(), 12345);
    assert_eq!(u64::from(f), 12345);
    assert_eq!(UserMarker::name(), "user");
}

#[test]
fn payload_packing() {
    // A short payload is followed by the sentinel byte.
    assert_eq!(pack_payload(vec![]), 1);
    assert_eq!(pack_payload(vec![0xAB, 0xCD]), 0x01_CDAB);
    // A full buffer carries no sentinel.
    assert_eq!(pack_payload(vec![0xFF; 16]), u128::MAX);
    assert_eq!(pack_payload(vec![0; 16]), 0);
}

#[test]
fn tag_comparison() {
    let expected = vec![1, 2, 3, 4, 5];
    assert!(tags_match(&expected, &vec![1, 2, 3], 3));
    assert!(!tags_match(&expected, &vec![1, 2, 4], 3));
    assert!(!tags_match(&expected, &vec![9, 2, 3], 3));
    assert!(tags_match(&expected, &vec![], 0));
}

#[test]
fn long_payload_with_wrong_tag_is_a_mac_error() {
    // Sentinel at byte 14: a fourteen-byte payload whose tag does not match.
    let c = codec("test", b"Test key here", 4, 4);
    let token = format!("test_{}", encode_b62((1u128 << 112) | 0x1234_5678));
    assert_eq!(c.decode(&token), Err(Error::IncorrectMAC));
}

#[test]
fn distinct_numbers_give_distinct_uuids() {
    let c = codec("test", b"Test key here", 4, 4);
    let uuids: Vec<_> = [0u64, 1, 2, 123, u64::MAX].iter().map(|&n| c.encode_uuid(n)).collect();
    for i in 0..uuids.len() {
        for j in 0..uuids.len() {
            assert_eq!(i == j, uuids[i] == uuids[j]);
        }
    }
}

#[test]
fn error_messages() {
    assert_eq!(Error::DecodingFailed.message(), "Decoding string failed");
    assert_eq!(Error::DecryptionFailed.message(), "FF1 decryption failed");
    assert_eq!(Error::EncryptionFailed.message(), "FF1 encryption failed");
    assert_eq!(Error::IncorrectMAC.message(), "Incorrect MAC");
    assert_eq!(Error::InvalidDataLength.message(), "Invalid data length");
    assert_eq!(
        Error::SentinelMismatch { received: 2, expected: 1 }.message(),
        "Sentinel byte was 2, expected 1"
    );
    assert_eq!(
        Error::SentinelMismatch { received: 255, expected: 10 }.message(),
        "Sentinel byte was 255, expected 10"
    );
    assert_eq!(
        Error::InvalidPrefix { received: "a_".to_string(), expected: "test_".to_string() }
            .message(),
        "Prefix was a_, expected test_"
    );
}
