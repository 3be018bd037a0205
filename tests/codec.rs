use cryptid::{Codec, Config, Error, SENTINEL};
use uuid::Uuid;

fn default_codec() -> Codec {
    Codec::new("test", &Config::new(b"Test key here")).unwrap()
}

#[test]
fn test_defaults() {
    let codec = default_codec();
    let test_cases = vec![
        (0, "test_g1HdsEGpXp5"),
        (1, "test_bTPc8uxHEwv"),
        (2, "test_dZ0iJdcLBgB"),
        (123, "test_hHLBCl4rZ3u"),
        (u64::MAX, "test_20cMzlnhTkILdJzWt"),
    ];

    for (input, expected) in test_cases {
        assert_eq!(codec.encode(input), expected);
        assert_eq!(codec.decode(expected).unwrap(), input);
    }
}

#[test]
fn test_uuid() {
    let codec = default_codec();
    let test_cases = [
        (0, "59142369-adeb-8ef9-a1be-28f61c05d4d6"),
        (1, "93196956-2d32-d8d2-54f7-9a86fc765f3a"),
        (2, "3c10f25c-005e-6f6f-87a9-781efe02d14d"),
        (123, "571fd9d5-e133-f7b0-b0df-f444e4dd1127"),
        (u64::MAX, "a3b06cf5-dd4d-3f09-4000-9d3519d4d6c2"),
    ];

    for &(input, expected) in &test_cases {
        assert_eq!(codec.encode_uuid(input), Uuid::parse_str(expected).unwrap());
    }
}

#[test]
fn test_long() {
    let config = Config::new(b"Test key here")
        .hmac_length(8)
        .unwrap()
        .zero_pad_length(8)
        .unwrap();
    let codec = Codec::new("test", &config).unwrap();
    assert_eq!(codec.encode(0), "test_6XNFaHOCeuIBNvRT4pIrVZ");
    assert_eq!(codec.encode(1), "test_1m9BJW23Jk5hSIlfPxoboZ");
    assert_eq!(codec.encode(2), "test_2MpvWPgnp5j1dIqFnJVOjU");
    assert_eq!(codec.encode(123), "test_1BirgT1ZJhfSsKFLgxA5gt");
    assert_eq!(codec.encode(u64::MAX), "test_5vegfyOLrrmwtgznQByI4J");
    assert_eq!(codec.decode("test_6XNFaHOCeuIBNvRT4pIrVZ").unwrap(), 0);
    assert_eq!(codec.decode("test_1m9BJW23Jk5hSIlfPxoboZ").unwrap(), 1);
    assert_eq!(codec.decode("test_2MpvWPgnp5j1dIqFnJVOjU").unwrap(), 2);
    assert_eq!(codec.decode("test_1BirgT1ZJhfSsKFLgxA5gt").unwrap(), 123);
    assert_eq!(
        codec.decode("test_5vegfyOLrrmwtgznQByI4J").unwrap(),
        u64::MAX
    );
}

#[test]
fn test_short() {
    let config = Config::new(b"Test key here")
        .hmac_length(0)
        .unwrap()
        .zero_pad_length(3)
        .unwrap();
    let codec = Codec::new("test", &config).unwrap();
    assert_eq!(codec.encode(0), "test_1zG8O");
    assert_eq!(codec.encode(1), "test_1R8PN");
    assert_eq!(codec.encode(2), "test_1nzgo");
    assert_eq!(codec.encode(123), "test_1YqNT");
    assert_eq!(codec.encode(u64::MAX), "test_Mlu72Yai97j");
    assert_eq!(codec.decode("test_1zG8O").unwrap(), 0);
    assert_eq!(codec.decode("test_1R8PN").unwrap(), 1);
    assert_eq!(codec.decode("test_1nzgo").unwrap(), 2);
    assert_eq!(codec.decode("test_1YqNT").unwrap(), 123);
    assert_eq!(codec.decode("test_Mlu72Yai97j").unwrap(), u64::MAX);

    // Without a tag, nearly any text decodes to some number.
    assert_eq!(codec.decode("test_1helloall").unwrap(), 20580488769766);
}

#[test]
fn test_decode_errors() {
    let codec = default_codec();

    assert_eq!(
        codec.decode("hHLBCl4rZ3u"),
        Err(Error::InvalidPrefix {
            received: "".to_string(),
            expected: "test_".to_string()
        })
    );

    assert_eq!(
        codec.decode("_hHLBCl4rZ3u"),
        Err(Error::InvalidPrefix {
            received: "_".to_string(),
            expected: "test_".to_string()
        })
    );

    assert_eq!(
        codec.decode("wrong_hHLBCl4rZ3u"),
        Err(Error::InvalidPrefix {
            received: "wrong_".to_string(),
            expected: "test_".to_string()
        })
    );

    assert_eq!(
        codec.decode("test_iHLBCl4rZ3u"),
        Err(Error::SentinelMismatch {
            received: 2,
            expected: SENTINEL,
        })
    );

    // Tampering with any part gives a MAC error.
    assert_eq!(codec.decode("test_hHLBCl4rZ3v"), Err(Error::IncorrectMAC));
    assert_eq!(codec.decode("test_hHMBCl4rZ3u"), Err(Error::IncorrectMAC));

    // Invalid characters aren't allowed.
    assert_eq!(codec.decode("test_hHLBCl+rZ3u"), Err(Error::DecodingFailed));

    // And the untouched token does decode.
    assert_eq!(codec.decode("test_hHLBCl4rZ3u"), Ok(123));
}

#[test]
fn test_random_roundtrips() {
    let codec = default_codec();
    // A fixed 64-bit linear congruential sequence stands in for random draws.
    let mut state: u64 = 0x853c_49e6_748f_ea9b;
    for _ in 0..10_000 {
        state = state
            .wrapping_mul(6364136223846793005)
            .wrapping_add(1442695040888963407);
        let number = state;
        let encoded = codec.encode(number);
        let decoded = codec.decode(&encoded).expect("Decoding failed");

        assert_eq!(decoded, number, "Failed at number: {}", number);
    }
}
