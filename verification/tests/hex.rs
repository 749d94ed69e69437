use rs_linkfusion::hex::{decode_hex_key, encode_hex, KeyError};

#[test]
fn bytes_are_two_lower_case_digits_each() {
    assert_eq!(encode_hex(&[]), "");
    assert_eq!(encode_hex(&[0x00, 0x0f, 0xa5, 0xff]), "000fa5ff");
    let all: Vec<u8> = (0u8..=255).collect();
    let expected: Vec<String> = all.iter().map(|b| format!("{b:02x}")).collect();
    assert_eq!(encode_hex(&all), expected.concat());
}

#[test]
fn every_key_comes_back_from_its_text() {
    let mut key = [0u8; 32];
    for round in 0..8u8 {
        for i in 0..32u8 {
            key[i as usize] = i.wrapping_mul(8).wrapping_add(round);
        }
        assert_eq!(decode_hex_key(&encode_hex(&key)), Ok(key));
    }
}

#[test]
fn exactly_the_pairs_of_hex_digits_are_read() {
    for high in 0u8..128 {
        for low in 0u8..128 {
            let pair = String::from_utf8(vec![high, low]).unwrap();
            let text = pair.repeat(32);
            let expected = if high.is_ascii_hexdigit() && low.is_ascii_hexdigit() {
                Ok([u8::from_str_radix(&pair, 16).unwrap(); 32])
            } else {
                Err(KeyError::InvalidHex)
            };
            assert_eq!(decode_hex_key(&text), expected);
        }
    }
}

#[test]
fn upper_case_digits_are_accepted() {
    assert_eq!(decode_hex_key(&"aB".repeat(32)), Ok([0xab; 32]));
    assert_eq!(decode_hex_key(&"AB".repeat(32)), Ok([0xab; 32]));
}

#[test]
fn signs_are_no_hex_digits() {
    assert_eq!(decode_hex_key(&"+f".repeat(32)), Err(KeyError::InvalidHex));
    assert_eq!(decode_hex_key(&"-f".repeat(32)), Err(KeyError::InvalidHex));
    assert_eq!(decode_hex_key(&format!("{}+f", "0f".repeat(31))), Err(KeyError::InvalidHex));
}

#[test]
fn wrong_length_is_reported_in_bytes() {
    assert_eq!(decode_hex_key(""), Err(KeyError::WrongLength(0)));
    assert_eq!(decode_hex_key(&"0".repeat(63)), Err(KeyError::WrongLength(63)));
    assert_eq!(decode_hex_key(&"ü".repeat(64)), Err(KeyError::WrongLength(128)));
    assert_eq!(
        KeyError::WrongLength(63).message(),
        "key must be 64 hex characters (32 bytes), got 63 characters"
    );
    assert_eq!(
        KeyError::WrongLength(usize::MAX).message(),
        format!("key must be 64 hex characters (32 bytes), got {} characters", usize::MAX)
    );
}

#[test]
fn other_characters_are_invalid() {
    let mut text = "0".repeat(62);
    text.push_str("0g");
    assert_eq!(decode_hex_key(&text), Err(KeyError::InvalidHex));
    assert_eq!(decode_hex_key(&"ü".repeat(32)), Err(KeyError::InvalidHex));
    assert_eq!(KeyError::InvalidHex.message(), "key must be valid hex");
}

#[test]
fn characters_of_several_bytes_are_invalid_wherever_they_stand() {
    for before in 0..=62 {
        let text = format!("{}é{}", "a".repeat(before), "a".repeat(62 - before));
        assert_eq!(text.len(), 64);
        assert_eq!(decode_hex_key(&text), Err(KeyError::InvalidHex));
    }
}
