use fl_convert::cipher::{decrypt, is_decryptable};

const GENE: [u8; 4] = [0x47, 0x65, 0x6E, 0x65];

fn encipher(plain: &[u8]) -> Vec<u8> {
    let mut out = b"FLS1".to_vec();
    for (i, b) in plain.iter().enumerate() {
        let key = (((GENE[i % 4] as usize + i) % 256) as u8) | 0x80;
        out.push(b ^ key);
    }
    out
}

#[test]
fn decrypt_known_ciphertext() {
    // 'H' ^ 0xC7 and 'i' ^ 0xE6
    let buffer = vec![0x46, 0x4C, 0x53, 0x31, 0x8F, 0x8F];
    assert!(is_decryptable(&buffer));
    assert_eq!(decrypt(&buffer).unwrap(), "Hi");
}

#[test]
fn decrypt_recovers_enciphered_save() {
    let plain = "[Player]\r\nMissionNum = 5\r\ndelta_worth = -1.000000\r\n";
    let buffer = encipher(plain.as_bytes());
    assert!(is_decryptable(&buffer));
    assert_eq!(decrypt(&buffer).unwrap(), plain);
}

#[test]
fn decrypt_recovers_long_save() {
    let plain: String = (0..600).map(|i| ((b'a' + (i % 26) as u8) as char)).collect();
    let buffer = encipher(plain.as_bytes());
    assert_eq!(decrypt(&buffer).unwrap(), plain);
}

#[test]
fn decrypt_passes_plain_text_through() {
    let plain = "[Player]\r\nMissionNum = 5\r\n";
    assert!(is_decryptable(plain.as_bytes()));
    assert_eq!(decrypt(plain.as_bytes()).unwrap(), plain);
}

#[test]
fn decrypt_replaces_invalid_plain_bytes() {
    let buffer = vec![b'f', 0xFF, b'g'];
    assert!(is_decryptable(&buffer));
    assert_eq!(decrypt(&buffer).unwrap(), "f\u{FFFD}g");
}

#[test]
fn only_a_leading_marker_marks_the_buffer_encrypted() {
    assert!(is_decryptable(b"xFLS1"));
    assert_eq!(decrypt(b"xFLS1").unwrap(), "xFLS1");
    assert_eq!(decrypt(b"[Player]\nFLS1 = 3\n").unwrap(), "[Player]\nFLS1 = 3\n");
}

#[test]
fn decrypt_marker_only_gives_empty_text() {
    assert_eq!(decrypt(b"FLS1").unwrap(), "");
}

#[test]
fn decrypt_empty_buffer() {
    assert!(is_decryptable(&[]));
    assert_eq!(decrypt(&[]).unwrap(), "");
}

#[test]
fn undecryptable_payload_is_reported() {
    // 0x38 ^ 0xC7 == 0xFF, which is not UTF-8.
    let buffer = vec![0x46, 0x4C, 0x53, 0x31, 0x38];
    assert!(!is_decryptable(&buffer));
}

#[test]
fn high_bit_payload_is_decryptable() {
    let buffer = vec![0x46, 0x4C, 0x53, 0x31, 0x80, 0xFF, 0xC3, 0xA9];
    assert!(is_decryptable(&buffer));
    assert!(decrypt(&buffer).unwrap().is_ascii());
}
