use ror_core::{parse_private_key, HexError, KeyError};

#[test]
fn reads_key_with_and_without_prefix() {
    let text = "000102030405060708090a0b0c0d0e0f101112131415161718191A1B1C1D1E1F";
    let mut expected = [0u8; 32];
    for (i, b) in expected.iter_mut().enumerate() {
        *b = i as u8;
    }
    assert_eq!(parse_private_key(text), Ok(expected));
    assert_eq!(parse_private_key(&format!("0x{}", text)), Ok(expected));
    assert_eq!(parse_private_key(&format!("0x0x{}", text)), Ok(expected));
}

#[test]
fn all_ones_key() {
    assert_eq!(parse_private_key(&"ff".repeat(32)), Ok([0xFFu8; 32]));
    assert_eq!(parse_private_key(&"FF".repeat(32)), Ok([0xFFu8; 32]));
}

#[test]
fn wrong_length_keys() {
    assert_eq!(parse_private_key(&"ab".repeat(31)), Err(KeyError::WrongLength));
    assert_eq!(parse_private_key(&"ab".repeat(33)), Err(KeyError::WrongLength));
    assert_eq!(parse_private_key(""), Err(KeyError::WrongLength));
    assert_eq!(parse_private_key("0x"), Err(KeyError::WrongLength));
}

#[test]
fn bad_hex_keys() {
    assert_eq!(
        parse_private_key("abc"),
        Err(KeyError::InvalidHex(HexError::OddLength))
    );
    assert_eq!(
        parse_private_key("0xabzd"),
        Err(KeyError::InvalidHex(HexError::InvalidHexCharacter { c: 'z', index: 2 }))
    );
    // odd length is reported before a bad digit
    assert_eq!(
        parse_private_key("zz1"),
        Err(KeyError::InvalidHex(HexError::OddLength))
    );
    let mut text = "00".repeat(32);
    text.replace_range(10..11, "g");
    assert_eq!(
        parse_private_key(&text),
        Err(KeyError::InvalidHex(HexError::InvalidHexCharacter { c: 'g', index: 10 }))
    );
}

#[test]
fn agrees_with_hex_crate() {
    for text in ["", "0", "00", "0g", "g0", "abcd", "ABCD", "aBcD12", "12 3"] {
        let ours = parse_private_key(&format!("{}{}", "11".repeat(32), text));
        let theirs = hex::decode(format!("{}{}", "11".repeat(32), text));
        match theirs {
            Ok(v) if v.len() == 32 => assert!(ours.is_ok()),
            Ok(_) => assert_eq!(ours, Err(KeyError::WrongLength)),
            Err(hex::FromHexError::OddLength) => {
                assert_eq!(ours, Err(KeyError::InvalidHex(HexError::OddLength)))
            }
            Err(hex::FromHexError::InvalidHexCharacter { c, index }) => assert_eq!(
                ours,
                Err(KeyError::InvalidHex(HexError::InvalidHexCharacter { c, index }))
            ),
            Err(hex::FromHexError::InvalidStringLength) => unreachable!(),
        }
    }
}
