use contract_abi::keys::{parse_key_text, HexError, KeyTextError, PublicKey};

const BASE_POINT: &str = "5866666666666666666666666666666666666666666666666666666666666666";

fn base_point() -> Vec<u8> {
    let mut bytes = vec![0x66; 32];
    bytes[0] = 0x58;
    bytes
}

#[test]
fn key_reads_back_from_its_text() {
    let key = PublicKey::from_bytes(&base_point()).unwrap();
    assert_eq!(key.to_hex(), BASE_POINT);
    assert_eq!(parse_key_text(BASE_POINT).unwrap(), key);
    assert_eq!(key.as_bytes(), base_point().as_slice());
}

#[test]
fn upper_case_digits_are_read() {
    let text = "D75A980182B10AB7D54BFED3C964073A0EE172F3DAA62325AF021A68F707511A";
    let key = parse_key_text(text).unwrap();
    assert_eq!(key.as_bytes()[0], 0xd7);
    assert_eq!(key.to_hex(), text.to_lowercase());
}

#[test]
fn odd_text_is_refused_first() {
    assert_eq!(parse_key_text("zzz"), Err(KeyTextError::Hex(HexError::OddLength)));
}

#[test]
fn first_bad_character_is_named() {
    assert_eq!(
        parse_key_text("00g0zz"),
        Err(KeyTextError::Hex(HexError::InvalidHexCharacter { c: 'g', index: 2 }))
    );
}

#[test]
fn text_beyond_ascii_is_read_byte_by_byte() {
    assert_eq!(
        parse_key_text("\u{e9}"),
        Err(KeyTextError::Hex(HexError::InvalidHexCharacter { c: '\u{c3}', index: 0 }))
    );
}

#[test]
fn key_of_wrong_length_is_refused() {
    assert_eq!(
        parse_key_text("0011"),
        Err(KeyTextError::Key(
            "signature error: PublicKey must be 32 bytes in length".to_string()
        ))
    );
    assert!(PublicKey::from_bytes(&[0x66; 33]).is_err());
}

#[test]
fn bytes_off_the_curve_are_refused() {
    let mut bytes = vec![0u8; 32];
    bytes[0] = 2;
    assert_eq!(
        PublicKey::from_bytes(&bytes),
        Err("signature error: Cannot decompress Edwards point".to_string())
    );
}

#[test]
fn zeros_are_a_key() {
    assert_eq!(PublicKey::from_bytes(&[0; 32]).unwrap().to_hex(), "0".repeat(64));
}
