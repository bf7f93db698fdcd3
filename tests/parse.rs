use bitcalc::{parse_input, AppError};

#[test]
fn reads_hex_binary_and_decimal() {
    assert_eq!(parse_input("0xdead'beef"), Ok(0xdead_beef));
    assert_eq!(parse_input("0XFF"), Ok(255));
    assert_eq!(parse_input("0b1000'0000"), Ok(128));
    assert_eq!(parse_input("0B101"), Ok(5));
    assert_eq!(parse_input("12'345"), Ok(12345));
    assert_eq!(parse_input("7"), Ok(7));
    assert_eq!(parse_input("+42"), Ok(42));
    assert_eq!(parse_input("18446744073709551615"), Ok(u64::MAX));
}

#[test]
fn repeated_prefixes_are_trimmed() {
    assert_eq!(parse_input("0x0x1f"), Ok(31));
    assert_eq!(parse_input("0x0X1f"), Ok(31));
    assert_eq!(parse_input("0b0b11"), Ok(3));
}

#[test]
fn bad_text_names_the_text_and_base() {
    assert_eq!(
        parse_input("xyz"),
        Err(AppError::Parsing { what: "xyz".to_string(), base: 10 })
    );
    assert_eq!(
        parse_input("0xzz"),
        Err(AppError::Parsing { what: "0xzz".to_string(), base: 16 })
    );
    assert_eq!(
        parse_input("0b12"),
        Err(AppError::Parsing { what: "0b12".to_string(), base: 2 })
    );
    assert_eq!(parse_input(""), Err(AppError::Parsing { what: String::new(), base: 10 }));
    assert_eq!(parse_input("'"), Err(AppError::Parsing { what: "'".to_string(), base: 10 }));
    assert_eq!(
        parse_input("18446744073709551616"),
        Err(AppError::Parsing { what: "18446744073709551616".to_string(), base: 10 })
    );
    assert_eq!(parse_input("-1"), Err(AppError::Parsing { what: "-1".to_string(), base: 10 }));
}
