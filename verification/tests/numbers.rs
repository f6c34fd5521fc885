use polite::number::{append_decimal, parse_i32, parse_i8, render, NumberError};
use polite::text::chars_of;
use std::num::IntErrorKind;

fn read_i8(s: &str) -> Result<i8, NumberError> {
    parse_i8(&chars_of(s))
}

fn read_i32(s: &str) -> Result<i32, NumberError> {
    parse_i32(&chars_of(s))
}

fn kind_of(e: &NumberError) -> IntErrorKind {
    match e {
        NumberError::Empty => IntErrorKind::Empty,
        NumberError::InvalidDigit => IntErrorKind::InvalidDigit,
        NumberError::PosOverflow => IntErrorKind::PosOverflow,
        NumberError::NegOverflow => IntErrorKind::NegOverflow,
    }
}

const SAMPLES: [&str; 48] = [
    "", "0", "1", "-1", "+1", "-0", "+0", "00", "007", "-007", "+", "-", "+-1", "--1", "++1", "1+",
    "1-", " 1", "1 ", "1a", "a1", "a", "12a", "127", "128", "-128", "-129", "0128", "000000000127",
    "000000000128", "999999999999999999999999", "-999999999999999999999999",
    "99999999999999999999999a", "-99999999999999999999999a", "1a9999999999999999999999",
    "2147483647", "2147483648", "-2147483648", "-2147483649", "21474836470", "1_000", "1.0", "0x10",
    "١٢", "1\u{a0}", "+٣", "1e3", "４",
];

#[test]
fn reads_i8_as_the_standard_library_does() {
    for s in SAMPLES {
        match (read_i8(s), s.parse::<i8>()) {
            (Ok(a), Ok(b)) => assert_eq!(a, b, "{:?}", s),
            (Err(a), Err(b)) => assert_eq!(&kind_of(&a), b.kind(), "{:?}", s),
            (a, b) => panic!("{:?}: {:?} against {:?}", s, a, b),
        }
    }
}

#[test]
fn reads_i32_as_the_standard_library_does() {
    for s in SAMPLES {
        match (read_i32(s), s.parse::<i32>()) {
            (Ok(a), Ok(b)) => assert_eq!(a, b, "{:?}", s),
            (Err(a), Err(b)) => assert_eq!(&kind_of(&a), b.kind(), "{:?}", s),
            (a, b) => panic!("{:?}: {:?} against {:?}", s, a, b),
        }
    }
}

#[test]
fn reads_every_i8_back() {
    for n in i8::MIN..=i8::MAX {
        assert_eq!(read_i8(&render(n as i32)), Ok(n));
        assert_eq!(read_i8(&n.to_string()), Ok(n));
    }
}

#[test]
fn reads_plain_numbers() {
    assert_eq!(read_i32("0"), Ok(0));
    assert_eq!(read_i32("42"), Ok(42));
    assert_eq!(read_i32("-42"), Ok(-42));
    assert_eq!(read_i32("+42"), Ok(42));
    assert_eq!(read_i32("0042"), Ok(42));
    assert_eq!(read_i32("2147483647"), Ok(i32::MAX));
    assert_eq!(read_i32("-2147483648"), Ok(i32::MIN));
    assert_eq!(read_i8("127"), Ok(127));
    assert_eq!(read_i8("-128"), Ok(-128));
}

#[test]
fn tells_the_faults_of_a_number_apart() {
    assert_eq!(read_i32(""), Err(NumberError::Empty));
    assert_eq!(read_i32("-"), Err(NumberError::InvalidDigit));
    assert_eq!(read_i32("+"), Err(NumberError::InvalidDigit));
    assert_eq!(read_i32("12x"), Err(NumberError::InvalidDigit));
    assert_eq!(read_i32(" 12"), Err(NumberError::InvalidDigit));
    assert_eq!(read_i32("2147483648"), Err(NumberError::PosOverflow));
    assert_eq!(read_i32("-2147483649"), Err(NumberError::NegOverflow));
    assert_eq!(read_i8("128"), Err(NumberError::PosOverflow));
    assert_eq!(read_i8("-129"), Err(NumberError::NegOverflow));
}

#[test]
fn overflow_is_found_before_a_later_bad_character() {
    assert_eq!(read_i8("1000x"), Err(NumberError::PosOverflow));
    assert_eq!(read_i8("-1000x"), Err(NumberError::NegOverflow));
    assert_eq!(read_i8("1x000"), Err(NumberError::InvalidDigit));
    assert_eq!(read_i8("12x"), Err(NumberError::InvalidDigit));
}

#[test]
fn number_messages_are_those_of_the_standard_library() {
    assert_eq!(NumberError::Empty.message(), "".parse::<i32>().unwrap_err().to_string());
    assert_eq!(NumberError::InvalidDigit.message(), "x".parse::<i32>().unwrap_err().to_string());
    assert_eq!(
        NumberError::PosOverflow.message(),
        "99999999999".parse::<i32>().unwrap_err().to_string()
    );
    assert_eq!(
        NumberError::NegOverflow.message(),
        "-99999999999".parse::<i32>().unwrap_err().to_string()
    );
    assert_eq!(NumberError::Empty.message(), "cannot parse integer from empty string");
    assert_eq!(NumberError::InvalidDigit.message(), "invalid digit found in string");
    assert_eq!(NumberError::PosOverflow.message(), "number too large to fit in target type");
    assert_eq!(NumberError::NegOverflow.message(), "number too small to fit in target type");
}

#[test]
fn renders_numbers_in_decimal() {
    assert_eq!(render(0), "0");
    assert_eq!(render(7), "7");
    assert_eq!(render(10), "10");
    assert_eq!(render(-1), "-1");
    assert_eq!(render(1000), "1000");
    assert_eq!(render(-1000), "-1000");
    assert_eq!(render(i32::MAX), "2147483647");
    assert_eq!(render(i32::MIN), "-2147483648");
    for n in [-100_000, -99, -10, -9, 9, 99, 100, 101, 65_535, 1_000_000_007] {
        assert_eq!(render(n), n.to_string());
    }
}

#[test]
fn appends_a_number_to_what_is_there() {
    let mut s = String::from("pid=");
    append_decimal(&mut s, 4321);
    append_decimal(&mut s, -5);
    assert_eq!(s, "pid=4321-5");
}
