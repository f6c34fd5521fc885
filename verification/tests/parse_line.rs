use polite::config::{
    parse_config_chars, parse_config_line, ParseError, PoliteConfig, DYNAMIC_ALIAS,
    NICENESS_MAX, NICENESS_MIN, OOM_SCORE_ADJ_MAX, OOM_SCORE_ADJ_MIN,
};
use polite::number::NumberError;
use polite::text::chars_of;

fn settings(niceness: i32, oom_score_adj: i32) -> PoliteConfig {
    PoliteConfig::new(niceness, oom_score_adj).unwrap()
}

#[test]
fn reads_a_record() {
    assert_eq!(parse_config_line("1;5;100"), Ok((1, settings(5, 100))));
    let (alias, config) = parse_config_line("65;-3;-250").unwrap();
    assert_eq!(alias, 65);
    assert_eq!(config.niceness(), -3);
    assert_eq!(config.oom_score_adj(), -250);
}

#[test]
fn reads_every_written_record_back() {
    for alias in i8::MIN..=i8::MAX {
        if alias == 0 {
            continue;
        }
        for niceness in NICENESS_MIN..=NICENESS_MAX {
            for oom in [OOM_SCORE_ADJ_MIN, -999, -1, 0, 1, 100, 999, OOM_SCORE_ADJ_MAX] {
                let line = format!("{};{};{}", alias, niceness, oom);
                assert_eq!(parse_config_line(&line), Ok((alias, settings(niceness, oom))), "{}", line);
            }
        }
    }
}

#[test]
fn reads_the_ends_of_the_ranges() {
    assert_eq!(parse_config_line("-128;-20;-1000"), Ok((-128, settings(-20, -1000))));
    assert_eq!(parse_config_line("127;19;1000"), Ok((127, settings(19, 1000))));
}

#[test]
fn takes_signs_and_leading_zeros() {
    assert_eq!(parse_config_line("+7;+05;0010"), Ok((7, settings(5, 10))));
    assert_eq!(parse_config_line("-7;-0;-0"), Ok((-7, settings(0, 0))));
}

#[test]
fn looks_at_three_fields_only() {
    assert_eq!(parse_config_line("1;5;100;junk"), Ok((1, settings(5, 100))));
    assert_eq!(parse_config_line("1;5;100;"), Ok((1, settings(5, 100))));
}

#[test]
fn refuses_a_line_of_too_few_fields() {
    for line in ["", "1", "1;5", "abc", "0", "0;0", ";"] {
        assert_eq!(parse_config_line(line), Err(ParseError::InvalidConfig), "{:?}", line);
    }
}

#[test]
fn refuses_the_reserved_alias_whatever_else_the_line_holds() {
    for line in ["0;5;100", "0;abc;def", "0;;", "0;99999999999;0", "0;20;2000", "-0;1;1", "+0;1;1", "000;1;1"] {
        assert_eq!(parse_config_line(line), Err(ParseError::AliasReserved), "{:?}", line);
    }
    assert_eq!(DYNAMIC_ALIAS, 0);
}

#[test]
fn refuses_values_out_of_range() {
    for line in ["1;20;0", "1;-21;0", "1;0;1001", "1;0;-1001", "1;20;1001", "1;2147483647;0", "1;0;-2147483648"] {
        assert_eq!(parse_config_line(line), Err(ParseError::OutOfRange), "{:?}", line);
    }
}

#[test]
fn refuses_every_niceness_and_adjustment_next_to_the_ranges() {
    for niceness in -60..=60 {
        for oom in [-1500, -1001, -1000, 0, 1000, 1001, 1500] {
            let line = format!("3;{};{}", niceness, oom);
            let inside = (-20..=19).contains(&niceness) && (-1000..=1000).contains(&oom);
            let expected =
                if inside { Ok((3, settings(niceness, oom))) } else { Err(ParseError::OutOfRange) };
            assert_eq!(parse_config_line(&line), expected, "{}", line);
        }
    }
}

#[test]
fn refuses_a_field_that_is_no_number() {
    assert_eq!(parse_config_line("x;5;100"), Err(ParseError::Number(NumberError::InvalidDigit)));
    assert_eq!(parse_config_line(";5;100"), Err(ParseError::Number(NumberError::Empty)));
    assert_eq!(parse_config_line("1;;100"), Err(ParseError::Number(NumberError::Empty)));
    assert_eq!(parse_config_line("1;5;"), Err(ParseError::Number(NumberError::Empty)));
    assert_eq!(parse_config_line("1;5;1o0"), Err(ParseError::Number(NumberError::InvalidDigit)));
    assert_eq!(parse_config_line(" 1;5;100"), Err(ParseError::Number(NumberError::InvalidDigit)));
    assert_eq!(parse_config_line("1; 5;100"), Err(ParseError::Number(NumberError::InvalidDigit)));
    assert_eq!(parse_config_line("1;5;100 "), Err(ParseError::Number(NumberError::InvalidDigit)));
    assert_eq!(parse_config_line("1;5;100\r"), Err(ParseError::Number(NumberError::InvalidDigit)));
}

#[test]
fn refuses_a_number_that_does_not_fit_its_width() {
    assert_eq!(parse_config_line("128;5;100"), Err(ParseError::Number(NumberError::PosOverflow)));
    assert_eq!(parse_config_line("-129;5;100"), Err(ParseError::Number(NumberError::NegOverflow)));
    assert_eq!(parse_config_line("1;2147483648;0"), Err(ParseError::Number(NumberError::PosOverflow)));
    assert_eq!(parse_config_line("1;0;-2147483649"), Err(ParseError::Number(NumberError::NegOverflow)));
    assert_eq!(parse_config_line("1;99999999999;0"), Err(ParseError::Number(NumberError::PosOverflow)));
}

#[test]
fn finds_the_faults_from_left_to_right() {
    assert_eq!(parse_config_line("x;y;z"), Err(ParseError::Number(NumberError::InvalidDigit)));
    assert_eq!(parse_config_line("1;99;"), Err(ParseError::Number(NumberError::Empty)));
    assert_eq!(parse_config_line("1;;99999"), Err(ParseError::Number(NumberError::Empty)));
    assert_eq!(parse_config_line("128;99;0"), Err(ParseError::Number(NumberError::PosOverflow)));
}

#[test]
fn reads_characters_as_it_reads_text() {
    for line in ["1;5;100", "0;1;1", "1;20;0", "x", "7;-20;-1000;more"] {
        assert_eq!(parse_config_chars(&chars_of(line)), parse_config_line(line));
    }
}

#[test]
fn parse_messages() {
    assert_eq!(ParseError::InvalidConfig.message(), "Invalid config");
    assert_eq!(ParseError::AliasReserved.message(), "Alias 0 reserved");
    assert_eq!(ParseError::OutOfRange.message(), "Value out of range");
    assert_eq!(
        ParseError::Number(NumberError::InvalidDigit).message(),
        "invalid digit found in string"
    );
    assert_eq!(parse_config_line("1;5").unwrap_err().message(), "Invalid config");
    assert_eq!(
        parse_config_line("a;5;1").unwrap_err().message(),
        "a".parse::<i8>().unwrap_err().to_string()
    );
}

#[test]
fn settings_cannot_be_made_out_of_range() {
    assert!(PoliteConfig::new(-20, -1000).is_some());
    assert!(PoliteConfig::new(19, 1000).is_some());
    assert!(PoliteConfig::new(-21, 0).is_none());
    assert!(PoliteConfig::new(20, 0).is_none());
    assert!(PoliteConfig::new(0, -1001).is_none());
    assert!(PoliteConfig::new(0, 1001).is_none());
    let c = PoliteConfig::new(5, 100).unwrap();
    assert_eq!((c.niceness(), c.oom_score_adj()), (5, 100));
    assert_eq!(c, c.clone());
}
