use rom_manager::numeric::parse_numeric_value_as_i16;
use rom_manager::numeric::parse_numeric_value_as_i32;
use rom_manager::numeric::NumberType;

#[test]
fn parse_numeric_value_from_decimal_value() {
    {
        let value_raw = &String::from("9");
        let (number_type, value) = parse_numeric_value_as_i16(&value_raw).unwrap();
        assert_eq!(number_type, NumberType::Decimal);
        assert_eq!(value, 9);
    }
    {
        let value_raw = &String::from("31");
        let (number_type, value) = parse_numeric_value_as_i16(&value_raw).unwrap();
        assert_eq!(number_type, NumberType::Decimal);
        assert_eq!(value, 31);
    }
    {
        let value_raw = &String::from("250");
        let (number_type, value) = parse_numeric_value_as_i16(&value_raw).unwrap();
        assert_eq!(number_type, NumberType::Decimal);
        assert_eq!(value, 250);
    }
    {
        let value_raw = &String::from("-250");
        let (number_type, value) = parse_numeric_value_as_i16(&value_raw).unwrap();
        assert_eq!(number_type, NumberType::Decimal);
        assert_eq!(value, -250);
    }
}

#[test]
fn parse_numeric_value_from_hexadecimal_value() {
    {
        let value_raw = &String::from("0x2");
        let (number_type, value) = parse_numeric_value_as_i16(&value_raw).unwrap();
        assert_eq!(number_type, NumberType::Hexadecimal);
        assert_eq!(value, 2);
    }
    {
        let value_raw = &String::from("0xF");
        let (number_type, value) = parse_numeric_value_as_i16(&value_raw).unwrap();
        assert_eq!(number_type, NumberType::Hexadecimal);
        assert_eq!(value, 15);
    }
    {
        let value_raw = &String::from("0x10");
        let (number_type, value) = parse_numeric_value_as_i16(&value_raw).unwrap();
        assert_eq!(number_type, NumberType::Hexadecimal);
        assert_eq!(value, 16);
    }
    {
        let value_raw = &String::from("0xFF");
        let (number_type, value) = parse_numeric_value_as_i16(&value_raw).unwrap();
        assert_eq!(number_type, NumberType::Hexadecimal);
        assert_eq!(value, 255);
    }
    {
        let value_raw = &String::from("0xff");
        let (number_type, value) = parse_numeric_value_as_i16(&value_raw).unwrap();
        assert_eq!(number_type, NumberType::Hexadecimal);
        assert_eq!(value, 255);
    }
    {
        let value_raw = &String::from("-0x10");
        let (number_type, value) = parse_numeric_value_as_i16(&value_raw).unwrap();
        assert_eq!(number_type, NumberType::Hexadecimal);
        assert_eq!(value, -16);
    }
}

#[test]
fn parse_numeric_value_from_hexadecimal_value_with_failure_when_value_is_too_big() {
    {
        let value_raw = &String::from("0xAAAA");
        assert!(parse_numeric_value_as_i16(&value_raw).is_err());
    }
    {
        let value_raw = &String::from("-0xAAAA");
        assert!(parse_numeric_value_as_i16(&value_raw).is_err());
    }
}

#[test]
fn parse_numeric_extreme_values() {
    assert_eq!(
        parse_numeric_value_as_i16("-32768").unwrap(),
        (NumberType::Decimal, i16::MIN)
    );
    assert_eq!(
        parse_numeric_value_as_i16("0x7FFF").unwrap(),
        (NumberType::Hexadecimal, i16::MAX)
    );
    assert_eq!(
        parse_numeric_value_as_i16("-0x8000").unwrap(),
        (NumberType::Hexadecimal, i16::MIN)
    );
    assert!(parse_numeric_value_as_i16("32768").is_err());
    assert!(parse_numeric_value_as_i16("0x8000").is_err());
}

#[test]
fn parse_numeric_as_i32_accepts_wider_values() {
    assert_eq!(
        parse_numeric_value_as_i32("0xAAAA").unwrap(),
        (NumberType::Hexadecimal, 0xAAAA)
    );
    assert_eq!(
        parse_numeric_value_as_i32("-123456789").unwrap(),
        (NumberType::Decimal, -123456789)
    );
    assert_eq!(
        parse_numeric_value_as_i32("0x7FFFFFFF").unwrap(),
        (NumberType::Hexadecimal, i32::MAX)
    );
    assert!(parse_numeric_value_as_i32("0x80000000").is_err());
}

#[test]
fn parse_numeric_rejects_garbage() {
    assert!(parse_numeric_value_as_i16("").is_err());
    assert!(parse_numeric_value_as_i16("x10").is_err());
    assert!(parse_numeric_value_as_i16("0x").is_err());
    assert!(parse_numeric_value_as_i16("12a").is_err());
    // A failed hexadecimal reading after `0x` is not retried as decimal.
    assert!(parse_numeric_value_as_i16("0xZZ").is_err());
}
