use cloak::otp::{
    decimal_string, encode_counter, hotp_generate, is_base32_key, parse_hash_function,
    truncate_digest, HashFunction, OneTimePassword, HOTP, TOTP,
};

const KEY: &str = "4AZJFQFIGYM2KMTOO72I6FAOZ6ZFWJR6";
const RFC_SECRET: &[u8] = b"12345678901234567890";

fn event_code(hash_function: &str) -> String {
    let hotp = OneTimePassword::new(KEY, false, hash_function, None, None).unwrap();
    hotp.generate()
}

#[test]
fn test_hotp_default() {
    let key = "4AZJFQFIGYM2KMTOO72I6FAOZ6ZFWJR6";
    let hotp = OneTimePassword::new(key, false, "SHA1", None, None).unwrap();
    assert_eq!(hotp.counter, 0);
    let code = hotp.generate();
    assert_eq!(code.len(), 6);
    assert_eq!(code, "852241");
}

#[test]
fn test_hotp_given_counter_and_length() {
    let key = "4AZJFQFIGYM2KMTOO72I6FAOZ6ZFWJR6";
    let hotp = OneTimePassword::new(key, false, "SHA1", Some(1), Some(8)).unwrap();
    let code = hotp.generate();
    assert_eq!(code.len(), 8);
    assert_eq!(code, "34863669");
}

#[test]
fn test_sha1() {
    assert_eq!(event_code("SHA1"), "852241");
}

#[test]
fn test_sha256() {
    assert_eq!(event_code("SHA256"), "851154");
}

#[test]
fn test_sha384() {
    assert_eq!(event_code("SHA384"), "607946");
}

#[test]
fn test_sha512() {
    assert_eq!(event_code("SHA512"), "377017");
}

#[test]
fn test_sha512_256() {
    assert_eq!(event_code("SHA512_256"), "171117");
}

#[test]
fn unknown_hash_function_falls_back_to_sha1() {
    assert_eq!(parse_hash_function("MD5"), HashFunction::Sha1);
    assert_eq!(event_code("sha256"), "852241");
}

#[test]
fn hash_function_names() {
    assert_eq!(parse_hash_function("SHA1"), HashFunction::Sha1);
    assert_eq!(parse_hash_function("SHA256"), HashFunction::Sha256);
    assert_eq!(parse_hash_function("SHA384"), HashFunction::Sha384);
    assert_eq!(parse_hash_function("SHA512"), HashFunction::Sha512);
    assert_eq!(parse_hash_function("SHA512_256"), HashFunction::Sha512_256);
}

#[test]
fn test_is_base32_key() {
    let result = is_base32_key("12123EQ");
    assert!(result.is_err());
    assert_eq!(
        result.err(),
        Some(String::from("the key is not a valid base32 encoding"))
    );

    let result = is_base32_key("4AZJFQFIGYM2KMTOO72I6FAOZ6ZFWJR6");
    assert!(result.is_ok());
    assert_eq!(
        result.ok(),
        Some(String::from("4AZJFQFIGYM2KMTOO72I6FAOZ6ZFWJR6"))
    );
}

#[test]
fn base32_key_is_upper_cased() {
    assert_eq!(
        is_base32_key("4azjfqfigym2kmtoo72i6faoz6zfwjr6"),
        Ok(String::from("4AZJFQFIGYM2KMTOO72I6FAOZ6ZFWJR6"))
    );
}

#[test]
fn invalid_secret_is_a_key_decode_error() {
    let err = OneTimePassword::new("12123EQ", false, "SHA1", None, None).unwrap_err();
    match err {
        cloak::error::Error::KeyDecode { key, .. } => assert_eq!(key, "12123EQ"),
        other => panic!("unexpected error {:?}", other),
    }
}

#[test]
fn defaults_of_new() {
    let otp = OneTimePassword::new(KEY, true, "SHA384", None, None).unwrap();
    assert_eq!(otp.counter, 0);
    assert_eq!(otp.output_len, 6);
    assert!(otp.totp);
    assert_eq!(otp.hash_function, HashFunction::Sha384);
    assert_eq!(otp.key.len(), 20);
}

#[test]
fn same_inputs_give_same_code() {
    let a = OneTimePassword::new(KEY, false, "SHA256", Some(42), Some(7)).unwrap();
    let b = OneTimePassword::new(KEY, false, "SHA256", Some(42), Some(7)).unwrap();
    let code = a.generate();
    assert_eq!(code, b.generate());
    assert_eq!(code, a.generate());
    assert_eq!(code.len(), 7);
    assert!(code.chars().all(|c| c.is_ascii_digit()));
}

#[test]
fn time_based_code_follows_the_time_step() {
    let otp = OneTimePassword::new(KEY, true, "SHA1", None, Some(8)).unwrap();
    assert_eq!(otp.counter_at_time(59), 1);
    assert_eq!(otp.generate_at(30), "34863669");
    assert_eq!(otp.generate_at(59), "34863669");
    assert_eq!(otp.generate_at(29), otp.generate_at(0));
    let now = otp.generate();
    assert_eq!(now.len(), 8);
}

#[test]
fn event_based_code_ignores_the_time() {
    let otp = OneTimePassword::new(KEY, false, "SHA1", Some(1), Some(8)).unwrap();
    assert_eq!(otp.get_counter(), 1);
    assert_eq!(otp.generate_at(123456789), "34863669");
}

#[test]
fn rfc4226_vectors() {
    let expected = [
        "755224", "287082", "359152", "969429", "338314", "254676", "287922", "162583", "399871",
        "520489",
    ];
    for (counter, code) in expected.iter().enumerate() {
        let hotp = HOTP::new(RFC_SECRET.to_vec(), counter as u64, 6);
        assert_eq!(hotp.generate(), *code);
    }
}

#[test]
fn rfc6238_sha1_vectors() {
    let totp = TOTP::new(RFC_SECRET.to_vec(), 30, 8);
    assert_eq!(totp.generate_at(59), "94287082");
    assert_eq!(totp.generate_at(1111111109), "07081804");
    assert_eq!(totp.generate_at(1111111111), "14050471");
    assert_eq!(totp.generate_at(1234567890), "89005924");
    assert_eq!(totp.generate_at(2000000000), "69279037");
    assert_eq!(totp.counter_at(59), 1);
    assert_eq!(totp.generate().len(), 8);
}

#[test]
fn rfc6238_sha256_and_sha512_vectors() {
    let key256 = b"12345678901234567890123456789012";
    let code = hotp_generate(HashFunction::Sha256, key256, 1, 8);
    assert_eq!(code, "46119246");
    let key512 = b"1234567890123456789012345678901234567890123456789012345678901234";
    let code = hotp_generate(HashFunction::Sha512, key512, 1, 8);
    assert_eq!(code, "90693936");
}

#[test]
fn hotp_matches_event_based_generator() {
    let otp = OneTimePassword::new(KEY, false, "SHA1", Some(5), None).unwrap();
    let hotp = HOTP::new(otp.key.clone(), 5, 6);
    assert_eq!(hotp.generate(), otp.generate());
}

#[test]
fn rfc4226_truncation_example() {
    let digest: [u8; 20] = [
        0x1f, 0x86, 0x98, 0x69, 0x0e, 0x02, 0xca, 0x16, 0x61, 0x85, 0x50, 0xef, 0x7f, 0x19, 0xda,
        0x8e, 0x94, 0x5b, 0x55, 0x5a,
    ];
    assert_eq!(truncate_digest(&digest), 0x50ef7f19);
    let otp = OneTimePassword::new(KEY, false, "SHA1", None, None).unwrap();
    assert_eq!(otp.encode_digest(&digest), "872921");
}

#[test]
fn top_bit_of_truncation_is_cleared() {
    let mut digest = [0xffu8; 20];
    digest[19] = 0xf0;
    assert_eq!(truncate_digest(&digest), 0x7fffffff);
}

#[test]
fn counter_is_big_endian() {
    assert_eq!(
        encode_counter(0x0102030405060708),
        vec![1, 2, 3, 4, 5, 6, 7, 8]
    );
    assert_eq!(encode_counter(0), vec![0; 8]);
}

#[test]
fn decimal_string_pads_and_cuts() {
    assert_eq!(decimal_string(123, 6), "000123");
    assert_eq!(decimal_string(1234567, 6), "234567");
    assert_eq!(decimal_string(7, 0), "");
    assert_eq!(decimal_string(2147483647, 12), "002147483647");
}

#[test]
fn nineteen_byte_digest_is_encoded() {
    let mut digest = [0u8; 19];
    digest[18] = 0x0f;
    digest[15] = 0x81;
    digest[16] = 0x02;
    digest[17] = 0x03;
    assert_eq!(truncate_digest(&digest), 0x0102030f);
    let otp = OneTimePassword::new(KEY, false, "SHA1", None, Some(9)).unwrap();
    assert_eq!(otp.encode_digest(&digest), format!("{:09}", 0x0102030fu32 % 1_000_000_000));
}

#[test]
fn zero_period_is_accepted_by_new() {
    let totp = TOTP::new(RFC_SECRET.to_vec(), 0, 6);
    drop(totp);
}
