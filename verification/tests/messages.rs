use mine_with_friends::messages::{HexError, JoinCode};

#[test]
fn it_works() {
    let result = 2 + 2;
    assert_eq!(result, 4);
}

#[test]
fn join_code_text_roundtrip() {
    let c = JoinCode([0x01, 0x23, 0x45, 0x67, 0x89, 0xab, 0xcd, 0xef, 0, 1, 2, 3, 4, 5, 6, 255]);
    let t = c.to_text();
    assert_eq!(t, "0123456789abcdef00010203040506ff");
    let back = JoinCode::try_from_text(&t).unwrap();
    assert_eq!(back, c);
}

#[test]
fn join_code_upper_case_accepted() {
    let c = JoinCode::try_from_text("0123456789ABCDEF00010203040506FF").unwrap();
    assert_eq!(c.0[5], 0xab);
    assert_eq!(c.0[15], 0xff);
}

#[test]
fn join_code_errors() {
    assert_eq!(JoinCode::try_from_text("abc"), Err(HexError::OddLengthString(3)));
    assert_eq!(JoinCode::try_from_text("abcd"), Err(HexError::InvalidLength(32, 4)));
    assert_eq!(
        JoinCode::try_from_text("0123456789abcdef00010203040506fg"),
        Err(HexError::InvalidChar(b'g'))
    );
    assert!(JoinCode::try_from_text("é123456789abcdef00010203040506f").is_err());
}
