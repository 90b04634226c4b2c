use cloak::error::Error;
use cloak::vault::{decrypt, encrypt, parse_envelope, seal_envelope};
use data_encoding::BASE64_NOPAD;

fn fields_of(envelope: &str) -> Vec<Vec<u8>> {
    let blob = envelope.split('\n').nth(1).unwrap();
    let inner = BASE64_NOPAD.decode(blob.as_bytes()).unwrap();
    let inner = String::from_utf8(inner).unwrap();
    inner
        .split('\n')
        .map(|f| BASE64_NOPAD.decode(f.as_bytes()).unwrap())
        .collect()
}

fn envelope_of(fields: &[Vec<u8>]) -> String {
    let inner: Vec<String> = fields.iter().map(|f| BASE64_NOPAD.encode(f)).collect();
    let inner = inner.join("\n");
    format!("VAULT;AES256\n{}", BASE64_NOPAD.encode(inner.as_bytes()))
}

#[test]
fn round_trip() {
    let plaintext = "This is a test document. A very secret one";
    let envelope = encrypt(plaintext, "hunter2").unwrap();
    assert!(envelope.starts_with("VAULT;AES256\n"));
    assert_eq!(decrypt(&envelope, "hunter2").unwrap(), plaintext);
}

#[test]
fn round_trip_unicode() {
    let plaintext = "clé secrète ✓";
    let envelope = encrypt(plaintext, "pässword").unwrap();
    assert_eq!(decrypt(&envelope, "pässword").unwrap(), plaintext);
}

#[test]
fn wrong_password() {
    let envelope = encrypt("secret", "right").unwrap();
    assert!(matches!(decrypt(&envelope, "wrong"), Err(Error::WrongPassword)));
}

#[test]
fn flipped_ciphertext_byte() {
    let envelope = encrypt("secret text", "pw").unwrap();
    let mut fields = fields_of(&envelope);
    assert_eq!(fields.len(), 4);
    fields[3][0] ^= 0x01;
    let tampered = envelope_of(&fields);
    assert!(matches!(decrypt(&tampered, "pw"), Err(Error::DecryptionError)));
}

#[test]
fn text_without_header() {
    assert!(matches!(decrypt("hello world", "pw"), Err(Error::FileNotEncrypted)));
    assert!(matches!(decrypt("VAULT;AES128\nabc", "pw"), Err(Error::FileNotEncrypted)));
}

#[test]
fn header_without_blob() {
    assert!(matches!(decrypt("VAULT;AES256", "pw"), Err(Error::FileNotEncrypted)));
    assert!(matches!(decrypt("VAULT;AES256\n!!!", "pw"), Err(Error::FileNotEncrypted)));
}

#[test]
fn wrong_number_of_fields() {
    let envelope = encrypt("secret", "pw").unwrap();
    let fields = fields_of(&envelope);
    let three = envelope_of(&fields[..3]);
    assert!(matches!(decrypt(&three, "pw"), Err(Error::FileNotEncrypted)));
    let mut five = fields.clone();
    five.push(vec![1, 2, 3]);
    assert!(matches!(decrypt(&envelope_of(&five), "pw"), Err(Error::FileNotEncrypted)));
}

#[test]
fn empty_plaintext_passes_through() {
    assert_eq!(encrypt("", "pw").unwrap(), "");
    assert_eq!(decrypt("", "pw").unwrap(), "");
}

#[test]
fn envelopes_are_fresh() {
    let a = encrypt("same text", "same password").unwrap();
    let b = encrypt("same text", "same password").unwrap();
    assert_ne!(a, b);
    let fa = fields_of(&a);
    let fb = fields_of(&b);
    assert_ne!(fa[0], fb[0]);
    assert_ne!(fa[2], fb[2]);
}

#[test]
fn envelope_layout() {
    let envelope = encrypt("abc", "pw").unwrap();
    let fields = fields_of(&envelope);
    assert_eq!(fields[0].len(), 32);
    assert_eq!(fields[1].len(), 32);
    assert_eq!(fields[2].len(), 12);
    assert_eq!(fields[3].len(), 3 + 16);
    let parsed = parse_envelope(envelope.as_bytes()).unwrap();
    assert_eq!(parsed.0, fields[0]);
    assert_eq!(parsed.1, fields[1]);
    assert_eq!(parsed.2, fields[2]);
    assert_eq!(parsed.3, fields[3]);
}

#[test]
fn sealing_is_deterministic_for_salt_and_nonce() {
    let salt = [7u8; 32];
    let nonce = [9u8; 12];
    let a = seal_envelope("text", "pw", &salt, &nonce).unwrap();
    let b = seal_envelope("text", "pw", &salt, &nonce).unwrap();
    assert_eq!(a, b);
    assert_eq!(decrypt(&a, "pw").unwrap(), "text");
    let fields = fields_of(&a);
    assert_eq!(fields[0], salt.to_vec());
    assert_eq!(fields[2], nonce.to_vec());
    assert_ne!(fields[3], b"text".to_vec());
}

#[test]
fn sealing_refuses_a_short_nonce() {
    let salt = [7u8; 32];
    assert!(matches!(
        seal_envelope("text", "pw", &salt, &[1u8; 8]),
        Err(Error::EncryptionError)
    ));
}

#[test]
fn envelope_is_ascii_with_one_newline() {
    let envelope = encrypt("a secret line\nand another", "pw").unwrap();
    assert_eq!(envelope.matches('\n').count(), 1);
    assert_eq!(envelope.find('\n'), Some(12));
    assert!(envelope
        .chars()
        .enumerate()
        .all(|(i, c)| i == 12 || (' '..='~').contains(&c)));
    let fields = fields_of(&envelope);
    assert_eq!(fields[3].len(), "a secret line\nand another".len() + 16);
}

#[test]
fn sealing_succeeds_with_a_full_nonce() {
    let salt = [1u8; 5];
    let nonce = [2u8; 12];
    let envelope = seal_envelope("", "pw", &salt, &nonce).unwrap();
    assert!(envelope.starts_with("VAULT;AES256\n"));
    assert_eq!(fields_of(&envelope)[3].len(), 16);
    assert_eq!(decrypt(&envelope, "pw").unwrap(), "");
}
